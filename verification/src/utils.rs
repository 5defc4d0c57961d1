//! Filesystem paths and the probes on them.
//!
//! A path is held as its text, in the POSIX form: components separated by
//! `/`, and an absolute path beginning with `/`. The string logic — joining,
//! taking the last component, telling absolute from relative — is verified;
//! only the probes that ask the disk (canonicalize, is a directory, exists)
//! are trusted declarations over `std::path::Path`.

use vstd::prelude::*;

verus! {

/// A path is absolute when it starts at the root directory.
pub open spec fn is_absolute_chars(s: Seq<char>) -> bool {
    s.len() > 0 && s[0] == '/'
}

/// `a` extended with one more component `b`.
pub open spec fn join_chars(a: Seq<char>, b: Seq<char>) -> Seq<char> {
    if a.len() == 0 {
        b
    } else if a.last() == '/' {
        a + b
    } else {
        a + seq!['/'] + b
    }
}

/// `s` without its trailing separators.
pub open spec fn strip_slashes(s: Seq<char>) -> Seq<char>
    decreases s.len(),
{
    if s.len() > 0 && s.last() == '/' {
        strip_slashes(s.drop_last())
    } else {
        s
    }
}

/// The characters after the last separator of `s`.
pub open spec fn after_last_slash(s: Seq<char>) -> Seq<char>
    decreases s.len(),
{
    if s.len() == 0 || s.last() == '/' {
        Seq::empty()
    } else {
        after_last_slash(s.drop_last()).push(s.last())
    }
}

/// The last component of a path: what follows its last separator once
/// trailing separators are dropped. The root itself and the `.` and `..`
/// components name no file, so they give `None`.
pub open spec fn file_name_chars(s: Seq<char>) -> Option<Seq<char>> {
    let c = after_last_slash(strip_slashes(s));
    if c.len() == 0 || c == seq!['.'] || c == seq!['.', '.'] {
        None
    } else {
        Some(c)
    }
}

/// A filesystem path, held as its text.
pub struct FsPath {
    chars: Vec<char>,
}

impl View for FsPath {
    type V = Seq<char>;

    closed spec fn view(&self) -> Seq<char> {
        self.chars@
    }
}

impl FsPath {
    /// The path written `text`.
    pub fn from_text(text: &str) -> (r: FsPath)
        ensures
            r@ == text@,
    {
        FsPath { chars: crate::text::str_to_chars(text) }
    }

    /// The path's text.
    pub fn text(&self) -> (r: String)
        ensures
            r@ == self@,
    {
        crate::text::chars_to_string(&self.chars)
    }

    /// An identical copy of the path.
    pub fn duplicate(&self) -> (r: FsPath)
        ensures
            r@ == self@,
    {
        let mut chars: Vec<char> = Vec::new();
        let mut i: usize = 0;
        while i < self.chars.len()
            invariant
                i <= self.chars@.len(),
                chars@ == self.chars@.subrange(0, i as int),
            decreases self.chars@.len() - i,
        {
            chars.push(self.chars[i]);
            i = i + 1;
            proof {
                assert(chars@ =~= self.chars@.subrange(0, i as int));
            }
        }
        proof {
            assert(chars@ =~= self.chars@);
        }
        FsPath { chars }
    }

    /// Whether the path starts at the root directory.
    pub fn is_absolute(&self) -> (r: bool)
        ensures
            r == is_absolute_chars(self@),
    {
        if self.chars.len() == 0 {
            false
        } else {
            self.chars[0] == '/'
        }
    }

    /// Whether the path is relative to the current directory.
    pub fn is_relative(&self) -> (r: bool)
        ensures
            r == !is_absolute_chars(self@),
    {
        !self.is_absolute()
    }

    /// The path extended with one more component.
    pub fn join(&self, name: &str) -> (r: FsPath)
        ensures
            r@ == join_chars(self@, name@),
    {
        let mut chars = self.duplicate().chars;
        if chars.len() == 0 {
            let r = FsPath { chars: crate::text::str_to_chars(name) };
            return r;
        }
        if chars[chars.len() - 1] != '/' {
            chars.push('/');
        }
        let tail = crate::text::str_to_chars(name);
        let mut i: usize = 0;
        let ghost base = chars@;
        while i < tail.len()
            invariant
                i <= tail@.len(),
                chars@ == base + tail@.subrange(0, i as int),
            decreases tail@.len() - i,
        {
            chars.push(tail[i]);
            i = i + 1;
            proof {
                assert(chars@ =~= base + tail@.subrange(0, i as int));
            }
        }
        proof {
            assert(tail@.subrange(0, tail@.len() as int) =~= tail@);
            assert(chars@ =~= join_chars(self@, name@));
        }
        FsPath { chars }
    }

    /// Whether the path's text holds `needle` somewhere.
    pub fn contains_text(&self, needle: &str) -> (r: bool)
        ensures
            r == crate::text::contains_chars(self@, needle@),
    {
        let n = crate::text::str_to_chars(needle);
        crate::text::contains_at(&self.chars, &n)
    }

    /// The last component of the path, or `None` where there is none.
    pub fn file_name(&self) -> (r: Option<String>)
        ensures
            match r {
                Some(t) => file_name_chars(self@) == Some(t@),
                None => file_name_chars(self@) is None,
            },
    {
        let v = &self.chars;
        let mut end = v.len();
        proof {
            assert(v@.subrange(0, v@.len() as int) =~= v@);
        }
        while end > 0 && v[end - 1] == '/'
            invariant
                end <= v@.len(),
                strip_slashes(v@) == strip_slashes(v@.subrange(0, end as int)),
            decreases end,
        {
            proof {
                let pre = v@.subrange(0, end as int);
                assert(pre.last() == v@[end - 1]);
                assert(pre.drop_last() =~= v@.subrange(0, end - 1));
            }
            end = end - 1;
        }
        proof {
            let pre = v@.subrange(0, end as int);
            if end > 0 {
                assert(pre.last() == v@[end - 1]);
            }
            assert(strip_slashes(pre) == pre);
        }
        let ghost stripped = v@.subrange(0, end as int);
        let mut start = end;
        proof {
            assert(v@.subrange(end as int, end as int) =~= Seq::<char>::empty());
            assert(after_last_slash(stripped) + Seq::<char>::empty() =~= after_last_slash(
                stripped,
            ));
        }
        while start > 0 && v[start - 1] != '/'
            invariant
                start <= end <= v@.len(),
                after_last_slash(stripped) == after_last_slash(v@.subrange(0, start as int))
                    + v@.subrange(start as int, end as int),
                stripped == v@.subrange(0, end as int),
                strip_slashes(v@) == stripped,
            decreases start,
        {
            proof {
                let pre = v@.subrange(0, start as int);
                assert(pre.last() == v@[start - 1]);
                assert(pre.drop_last() =~= v@.subrange(0, start - 1));
                assert(after_last_slash(pre) == after_last_slash(v@.subrange(0, start - 1)).push(
                    v@[start - 1],
                ));
                assert(after_last_slash(v@.subrange(0, start - 1)).push(v@[start - 1])
                    + v@.subrange(start as int, end as int) =~= after_last_slash(
                    v@.subrange(0, start - 1),
                ) + v@.subrange(start - 1, end as int));
            }
            start = start - 1;
        }
        proof {
            let pre = v@.subrange(0, start as int);
            if start > 0 {
                assert(pre.last() == v@[start - 1]);
            }
            assert(after_last_slash(pre) =~= Seq::<char>::empty());
            assert(after_last_slash(stripped) =~= v@.subrange(start as int, end as int));
        }
        let count = end - start;
        if count == 0 {
            proof {
                assert(after_last_slash(stripped) =~= Seq::<char>::empty());
            }
            return None;
        }
        if count == 1 && v[start] == '.' {
            proof {
                assert(after_last_slash(stripped) =~= seq!['.']);
            }
            return None;
        }
        if count == 2 && v[start] == '.' && v[start + 1] == '.' {
            proof {
                assert(after_last_slash(stripped) =~= seq!['.', '.']);
            }
            return None;
        }
        let mut out: Vec<char> = Vec::new();
        let mut i = start;
        while i < end
            invariant
                start <= i <= end <= v@.len(),
                out@ == v@.subrange(start as int, i as int),
            decreases end - i,
        {
            out.push(v[i]);
            i = i + 1;
            proof {
                assert(out@ =~= v@.subrange(start as int, i as int));
            }
        }
        proof {
            assert(out@ =~= after_last_slash(strip_slashes(v@)));
            let c = after_last_slash(strip_slashes(v@));
            assert(c.len() > 0);
            if c.len() == 1 && c[0] == '.' {
                assert(c =~= seq!['.']);
            }
            if c.len() == 2 && c[0] == '.' && c[1] == '.' {
                assert(c =~= seq!['.', '.']);
            }
            assert(file_name_chars(v@) == Some(c));
        }
        Some(crate::text::chars_to_string(&out))
    }
}

/// Relies on Path::canonicalize: on success the result is the canonical,
/// absolute form of the path, and an absolute path begins with the root
/// separator on this target. `None` on failure or non-Unicode results.
#[verifier::external_body]
fn canonical_text(s: &String) -> (r: Option<String>)
    ensures
        r matches Some(t) ==> is_absolute_chars(t@),
{
    match std::path::Path::new(s.as_str()).canonicalize() {
        Ok(p) => match p.to_str() {
            Some(t) => Some(t.to_string()),
            None => None,
        },
        Err(_) => None,
    }
}

/// Relies on Path::is_dir: whether the path names a directory on disk.
#[verifier::external_body]
fn is_dir_text(s: &String) -> bool {
    std::path::Path::new(s.as_str()).is_dir()
}

/// Relies on Path::exists: whether the path names anything on disk.
#[verifier::external_body]
fn exists_text(s: &String) -> bool {
    std::path::Path::new(s.as_str()).exists()
}

/// The absolute form of a path: an absolute path is returned unchanged;
/// a relative one is resolved against the disk, falling back to the
/// original path where resolution fails.
pub fn path_absolute(path: &FsPath) -> (r: FsPath)
    ensures
        is_absolute_chars(path@) ==> r@ == path@,
        r@ == path@ || is_absolute_chars(r@),
{
    if path.is_absolute() {
        return path.duplicate();
    }
    match canonical_text(&path.text()) {
        Some(t) => FsPath::from_text(t.as_str()),
        None => path.duplicate(),
    }
}

/// Whether the absolute form of the path names a directory.
pub fn dir_exist(path: &FsPath) -> bool {
    let abs = path_absolute(path);
    is_dir_text(&abs.text())
}

/// Whether the absolute form of the path names anything at all.
pub fn file_exist(path: &FsPath) -> bool {
    let abs = path_absolute(path);
    exists_text(&abs.text())
}

} // verus!
