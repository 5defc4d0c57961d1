//! The project-configuration codec and the contract-source template.
//!
//! A configuration is persisted as a small key/value document with an
//! `[info]` table (name, license) and a `[compiler]` table (solc, optimize,
//! runs). `config_encode` renders that document and `config_decode` parses
//! it back; `lemma_config_round_trip` proves that the two are inverses.

use vstd::prelude::*;

verus! {

// ---------------------------------------------------------------------
// Data model
// ---------------------------------------------------------------------
/// The `[info]` table of a project configuration.
pub struct ConfigInfo {
    pub name: String,
    pub license: String,
}

/// The `[compiler]` table of a project configuration.
pub struct ConfigCompiler {
    pub solc: String,
    pub optimize: bool,
    pub runs: i64,
}

/// A project configuration: who the project is and how to compile it.
pub struct Config {
    pub info: ConfigInfo,
    pub compiler: ConfigCompiler,
}

/// The mathematical content of a `Config`: its five fields as values.
pub struct ConfigV {
    pub name: Seq<char>,
    pub license: Seq<char>,
    pub solc: Seq<char>,
    pub optimize: bool,
    pub runs: int,
}

impl View for Config {
    type V = ConfigV;

    open spec fn view(&self) -> ConfigV {
        ConfigV {
            name: self.info.name@,
            license: self.info.license@,
            solc: self.compiler.solc@,
            optimize: self.compiler.optimize,
            runs: self.compiler.runs as int,
        }
    }
}

// ---------------------------------------------------------------------
// String escaping inside quoted values
// ---------------------------------------------------------------------
/// How one character is written inside a quoted value.
pub open spec fn esc_char(c: char) -> Seq<char> {
    if c == '"' {
        seq!['\\', '"']
    } else if c == '\\' {
        seq!['\\', '\\']
    } else {
        seq![c]
    }
}

/// How a whole string is written inside a quoted value.
pub open spec fn escape_chars(s: Seq<char>) -> Seq<char>
    decreases s.len(),
{
    if s.len() == 0 {
        Seq::empty()
    } else {
        escape_chars(s.drop_last()) + esc_char(s.last())
    }
}

/// Escaping distributes over concatenation.
proof fn lemma_escape_add(a: Seq<char>, b: Seq<char>)
    ensures
        escape_chars(a + b) == escape_chars(a) + escape_chars(b),
    decreases b.len(),
{
    if b.len() == 0 {
        assert(a + b =~= a);
        assert(escape_chars(a) + escape_chars(b) =~= escape_chars(a));
    } else {
        assert((a + b).drop_last() =~= a + b.drop_last());
        assert((a + b).last() == b.last());
        lemma_escape_add(a, b.drop_last());
        assert(escape_chars(a) + escape_chars(b.drop_last()) + esc_char(b.last()) =~= escape_chars(
            a,
        ) + (escape_chars(b.drop_last()) + esc_char(b.last())));
    }
}

/// What an escape pair stands for; `None` where the pair is not accepted.
pub open spec fn unesc_char(c: char) -> Option<char> {
    if c == '"' {
        Some('"')
    } else if c == '\\' {
        Some('\\')
    } else {
        None
    }
}

/// Parse a quoted value after its opening quote: the value's characters,
/// and the input left after the closing quote.
pub open spec fn p_str(s: Seq<char>) -> Option<(Seq<char>, Seq<char>)>
    decreases s.len(),
{
    if s.len() == 0 {
        None
    } else if s[0] == '"' {
        Some((Seq::empty(), s.drop_first()))
    } else if s[0] == '\\' {
        if s.len() < 2 {
            None
        } else {
            match unesc_char(s[1]) {
                Some(c) => match p_str(s.skip(2)) {
                    Some(tr) => Some((seq![c] + tr.0, tr.1)),
                    None => None,
                },
                None => None,
            }
        }
    } else {
        match p_str(s.drop_first()) {
            Some(tr) => Some((seq![s[0]] + tr.0, tr.1)),
            None => None,
        }
    }
}

/// Parsing a quoted value undoes escaping: the escaped text, a closing
/// quote and anything after parse back to the original text.
proof fn lemma_p_str_round(t: Seq<char>, rest: Seq<char>)
    ensures
        p_str(escape_chars(t) + seq!['"'] + rest) == Some((t, rest)),
    decreases t.len(),
{
    if t.len() == 0 {
        let s = escape_chars(t) + seq!['"'] + rest;
        assert(s =~= seq!['"'] + rest);
        assert(s[0] == '"');
        assert(s.drop_first() =~= rest);
    } else {
        let c = t[0];
        let t1 = t.drop_first();
        assert(t =~= seq![c] + t1);
        lemma_escape_add(seq![c], t1);
        assert(seq![c].drop_last() =~= Seq::<char>::empty());
        assert(seq![c].last() == c);
        assert(escape_chars(Seq::<char>::empty()) == Seq::<char>::empty());
        assert(escape_chars(seq![c]) == escape_chars(seq![c].drop_last()) + esc_char(
            seq![c].last(),
        ));
        assert(escape_chars(seq![c]) =~= esc_char(c));
        let s = escape_chars(t) + seq!['"'] + rest;
        lemma_p_str_round(t1, rest);
        if c == '"' || c == '\\' {
            assert(s =~= seq!['\\', c] + (escape_chars(t1) + seq!['"'] + rest));
            assert(s[0] == '\\');
            assert(s[1] == c);
            assert(unesc_char(c) == Some(c));
            assert(s.skip(2) =~= escape_chars(t1) + seq!['"'] + rest);
            assert(p_str(s) == Some((seq![c] + t1, rest)));
            assert(seq![c] + t1 =~= t);
        } else {
            assert(s =~= seq![c] + (escape_chars(t1) + seq!['"'] + rest));
            assert(s[0] == c);
            assert(s.drop_first() =~= escape_chars(t1) + seq!['"'] + rest);
            assert(p_str(s) == Some((seq![c] + t1, rest)));
            assert(seq![c] + t1 =~= t);
        }
    }
}

// ---------------------------------------------------------------------
// Fixed text, booleans and integers
// ---------------------------------------------------------------------
/// Parse a fixed piece of text: the input after it, or `None` where the
/// input does not start with it.
pub open spec fn p_lit(s: Seq<char>, lit: Seq<char>) -> Option<Seq<char>> {
    if lit.len() <= s.len() && s.take(lit.len() as int) == lit {
        Some(s.skip(lit.len() as int))
    } else {
        None
    }
}

proof fn lemma_p_lit_round(lit: Seq<char>, rest: Seq<char>)
    ensures
        p_lit(lit + rest, lit) == Some(rest),
{
    assert((lit + rest).take(lit.len() as int) =~= lit);
    assert((lit + rest).skip(lit.len() as int) =~= rest);
}

/// How a boolean is written.
pub open spec fn bool_chars(b: bool) -> Seq<char> {
    if b {
        "true"@
    } else {
        "false"@
    }
}

/// Parse a boolean.
pub open spec fn p_bool(s: Seq<char>) -> Option<(bool, Seq<char>)> {
    match p_lit(s, "true"@) {
        Some(r) => Some((true, r)),
        None => match p_lit(s, "false"@) {
            Some(r) => Some((false, r)),
            None => None,
        },
    }
}

proof fn lemma_p_bool_round(b: bool, rest: Seq<char>)
    ensures
        p_bool(bool_chars(b) + rest) == Some((b, rest)),
{
    reveal_strlit("true");
    reveal_strlit("false");
    if b {
        lemma_p_lit_round("true"@, rest);
    } else {
        let s = "false"@ + rest;
        assert(s[0] == 'f');
        if p_lit(s, "true"@) is Some {
            assert(s.take(4)[0] == 'f');
        }
        lemma_p_lit_round("false"@, rest);
    }
}

/// Whether `c` is a decimal digit.
pub open spec fn is_digit(c: char) -> bool {
    c == '0' || c == '1' || c == '2' || c == '3' || c == '4' || c == '5' || c == '6' || c == '7'
        || c == '8' || c == '9'
}

/// The value of a digit character; ten for any other character.
pub open spec fn digit_val(c: char) -> int {
    if c == '0' {
        0
    } else if c == '1' {
        1
    } else if c == '2' {
        2
    } else if c == '3' {
        3
    } else if c == '4' {
        4
    } else if c == '5' {
        5
    } else if c == '6' {
        6
    } else if c == '7' {
        7
    } else if c == '8' {
        8
    } else if c == '9' {
        9
    } else {
        10
    }
}

/// The character for a digit value below ten.
pub open spec fn digit_char(d: int) -> char {
    if d == 0 {
        '0'
    } else if d == 1 {
        '1'
    } else if d == 2 {
        '2'
    } else if d == 3 {
        '3'
    } else if d == 4 {
        '4'
    } else if d == 5 {
        '5'
    } else if d == 6 {
        '6'
    } else if d == 7 {
        '7'
    } else if d == 8 {
        '8'
    } else {
        '9'
    }
}

/// How many decimal digits the input starts with.
pub open spec fn digits_len(s: Seq<char>) -> int
    decreases s.len(),
{
    if s.len() == 0 || !is_digit(s[0]) {
        0
    } else {
        1 + digits_len(s.drop_first())
    }
}

/// The value of a run of digit characters, most significant first.
pub open spec fn digits_val(s: Seq<char>) -> int
    decreases s.len(),
{
    if s.len() == 0 {
        0
    } else {
        digits_val(s.drop_last()) * 10 + digit_val(s.last())
    }
}

/// The decimal digits of a non-negative integer, no leading zeros.
pub open spec fn u_digits(n: nat) -> Seq<char>
    decreases n,
{
    if n < 10 {
        seq![digit_char(n as int)]
    } else {
        u_digits(n / 10).push(digit_char((n % 10) as int))
    }
}

/// How an integer is written: an optional minus sign, then digits.
pub open spec fn fmt_int(v: int) -> Seq<char> {
    if v < 0 {
        seq!['-'] + u_digits((-v) as nat)
    } else {
        u_digits(v as nat)
    }
}

/// Parse an integer that fits in `i64`.
pub open spec fn p_int(s: Seq<char>) -> Option<(int, Seq<char>)> {
    let neg = s.len() > 0 && s[0] == '-';
    let body = if neg {
        s.drop_first()
    } else {
        s
    };
    let n = digits_len(body);
    if n == 0 {
        None
    } else {
        let mag = digits_val(body.take(n));
        let v = if neg {
            -mag
        } else {
            mag
        };
        if v < i64::MIN as int || v > i64::MAX as int {
            None
        } else {
            Some((v, body.skip(n)))
        }
    }
}

/// The digits of `n` are digits, there is at least one, and they read
/// back as `n`.
proof fn lemma_u_digits(n: nat)
    ensures
        u_digits(n).len() >= 1,
        forall|i: int| 0 <= i < u_digits(n).len() ==> is_digit(#[trigger] u_digits(n)[i]),
        digits_val(u_digits(n)) == n,
    decreases n,
{
    if n < 10 {
        assert(u_digits(n) =~= seq![digit_char(n as int)]);
        assert(u_digits(n).drop_last() =~= Seq::<char>::empty());
        assert(u_digits(n).last() == digit_char(n as int));
        assert(digits_val(Seq::<char>::empty()) == 0);
        assert(digits_val(u_digits(n)) == digits_val(u_digits(n).drop_last()) * 10 + digit_val(
            u_digits(n).last(),
        ));
        assert(digits_val(u_digits(n)) == digit_val(digit_char(n as int)));
    } else {
        lemma_u_digits(n / 10);
        let u = u_digits(n);
        assert(u == u_digits(n / 10).push(digit_char((n % 10) as int)));
        assert(u.drop_last() =~= u_digits(n / 10));
        assert(u.last() == digit_char((n % 10) as int));
        assert(digits_val(u) == (n / 10) * 10 + (n % 10));
        assert(forall|i: int| 0 <= i < u.len() - 1 ==> u[i] == u_digits(n / 10)[i]);
    }
}

/// Digit values are never negative.
proof fn lemma_digits_val_nonneg(s: Seq<char>)
    ensures
        digits_val(s) >= 0,
    decreases s.len(),
{
    if s.len() > 0 {
        lemma_digits_val_nonneg(s.drop_last());
    }
}

/// A longer run of digits has at least ten times the value of a proper
/// prefix of it.
proof fn lemma_digits_val_prefix(s: Seq<char>, m: int)
    requires
        0 <= m < s.len(),
    ensures
        digits_val(s) >= digits_val(s.take(m)) * 10,
    decreases s.len() - m,
{
    if m == s.len() - 1 {
        assert(s.take(m) =~= s.drop_last());
        assert(digits_val(s) == digits_val(s.drop_last()) * 10 + digit_val(s.last()));
    } else {
        lemma_digits_val_prefix(s.drop_last(), m);
        assert(s.drop_last().take(m) =~= s.take(m));
        lemma_digits_val_nonneg(s.drop_last());
        assert(digits_val(s) == digits_val(s.drop_last()) * 10 + digit_val(s.last()));
        assert(digits_val(s.drop_last()) * 10 >= digits_val(s.drop_last())) by (nonlinear_arith)
            requires
                digits_val(s.drop_last()) >= 0,
        ;
    }
}

/// A digit run followed by something that is not a digit has an exact
/// digit count.
proof fn lemma_digits_len_exact(d: Seq<char>, rest: Seq<char>)
    requires
        forall|i: int| 0 <= i < d.len() ==> is_digit(#[trigger] d[i]),
        rest.len() == 0 || !is_digit(rest[0]),
    ensures
        digits_len(d + rest) == d.len(),
    decreases d.len(),
{
    if d.len() == 0 {
        assert(d + rest =~= rest);
    } else {
        assert((d + rest)[0] == d[0]);
        assert((d + rest).drop_first() =~= d.drop_first() + rest);
        lemma_digits_len_exact(d.drop_first(), rest);
    }
}

/// Parsing a formatted integer gives back that integer.
proof fn lemma_p_int_round(v: int, rest: Seq<char>)
    requires
        i64::MIN <= v <= i64::MAX,
        rest.len() == 0 || !is_digit(rest[0]),
    ensures
        p_int(fmt_int(v) + rest) == Some((v, rest)),
{
    let s = fmt_int(v) + rest;
    if v < 0 {
        let mag = (-v) as nat;
        lemma_u_digits(mag);
        let d = u_digits(mag);
        assert(s =~= seq!['-'] + (d + rest));
        assert(s[0] == '-');
        assert(s.drop_first() =~= d + rest);
        lemma_digits_len_exact(d, rest);
        assert((d + rest).take(d.len() as int) =~= d);
        assert((d + rest).skip(d.len() as int) =~= rest);
    } else {
        let mag = v as nat;
        lemma_u_digits(mag);
        let d = u_digits(mag);
        assert(s =~= d + rest);
        assert(s[0] == d[0]);
        assert(is_digit(d[0]));
        assert(s[0] != '-');
        lemma_digits_len_exact(d, rest);
        assert(s.take(d.len() as int) =~= d);
        assert(s.skip(d.len() as int) =~= rest);
    }
}

// ---------------------------------------------------------------------
// The configuration document
// ---------------------------------------------------------------------
/// Text before the project name.
pub open spec fn lit_head() -> Seq<char> {
    "[info]\nname = \""@
}

/// Text between the project name and the license.
pub open spec fn lit_license() -> Seq<char> {
    "\nlicense = \""@
}

/// Text between the license and the compiler path.
pub open spec fn lit_compiler() -> Seq<char> {
    "\n\n[compiler]\nsolc = \""@
}

/// Text before the optimize flag.
pub open spec fn lit_optimize() -> Seq<char> {
    "\noptimize = "@
}

/// Text before the optimizer-runs count.
pub open spec fn lit_runs() -> Seq<char> {
    "\nruns = "@
}

/// Text closing the document.
pub open spec fn lit_end() -> Seq<char> {
    "\n"@
}

/// The configuration document for `c`, character by character.
pub open spec fn encode_config_chars(c: ConfigV) -> Seq<char> {
    lit_head() + escape_chars(c.name) + seq!['"'] + lit_license() + escape_chars(c.license)
        + seq!['"'] + lit_compiler() + escape_chars(c.solc) + seq!['"'] + lit_optimize()
        + bool_chars(c.optimize) + lit_runs() + fmt_int(c.runs) + lit_end()
}

/// Parse a whole configuration document; `None` on any malformed input.
pub open spec fn parse_config_chars(s: Seq<char>) -> Option<ConfigV> {
    match p_lit(s, lit_head()) {
        None => None,
        Some(s1) => match p_str(s1) {
            None => None,
            Some((name, s2)) => match p_lit(s2, lit_license()) {
                None => None,
                Some(s3) => match p_str(s3) {
                    None => None,
                    Some((license, s4)) => match p_lit(s4, lit_compiler()) {
                        None => None,
                        Some(s5) => match p_str(s5) {
                            None => None,
                            Some((solc, s6)) => match p_lit(s6, lit_optimize()) {
                                None => None,
                                Some(s7) => match p_bool(s7) {
                                    None => None,
                                    Some((optimize, s8)) => match p_lit(s8, lit_runs()) {
                                        None => None,
                                        Some(s9) => match p_int(s9) {
                                            None => None,
                                            Some((runs, s10)) => match p_lit(s10, lit_end()) {
                                                None => None,
                                                Some(s11) => if s11.len() == 0 {
                                                    Some(
                                                        ConfigV {
                                                            name,
                                                            license,
                                                            solc,
                                                            optimize,
                                                            runs,
                                                        },
                                                    )
                                                } else {
                                                    None
                                                },
                                            },
                                        },
                                    },
                                },
                            },
                        },
                    },
                },
            },
        },
    }
}

/// Law: parsing an encoded configuration document gives back exactly the
/// configuration it was made from.
#[verifier::rlimit(80)]
pub proof fn lemma_config_round_trip(c: ConfigV)
    requires
        i64::MIN <= c.runs <= i64::MAX,
    ensures
        parse_config_chars(encode_config_chars(c)) == Some(c),
{
    let s11 = Seq::<char>::empty();
    let s10 = lit_end();
    let s9 = fmt_int(c.runs) + s10;
    let s8 = lit_runs() + s9;
    let s7 = bool_chars(c.optimize) + s8;
    let s6 = lit_optimize() + s7;
    let s5 = escape_chars(c.solc) + seq!['"'] + s6;
    let s4 = lit_compiler() + s5;
    let s3 = escape_chars(c.license) + seq!['"'] + s4;
    let s2 = lit_license() + s3;
    let s1 = escape_chars(c.name) + seq!['"'] + s2;
    let s0 = lit_head() + s1;
    assert(encode_config_chars(c) =~= s0);
    lemma_p_lit_round(lit_head(), s1);
    lemma_p_str_round(c.name, s2);
    lemma_p_lit_round(lit_license(), s3);
    lemma_p_str_round(c.license, s4);
    lemma_p_lit_round(lit_compiler(), s5);
    lemma_p_str_round(c.solc, s6);
    lemma_p_lit_round(lit_optimize(), s7);
    lemma_p_bool_round(c.optimize, s8);
    lemma_p_lit_round(lit_runs(), s9);
    reveal_strlit("\n");
    assert(s10[0] == '\n');
    assert(!is_digit(s10[0]));
    lemma_p_int_round(c.runs, s10);
    assert(s10 =~= lit_end() + s11);
    lemma_p_lit_round(lit_end(), s11);
}

/// Law: the document a fresh project is initialized with — license
/// upper-cased, optimization off, zero runs — parses back to exactly the
/// name, license and compiler it was made from.
pub proof fn lemma_init_round_trip(name: Seq<char>, compiler: Seq<char>, license: Seq<char>)
    ensures
        parse_config_chars(
            encode_config_chars(
                ConfigV {
                    name,
                    license: upper_of(license),
                    solc: compiler,
                    optimize: false,
                    runs: 0,
                },
            ),
        ) == Some(
            ConfigV { name, license: upper_of(license), solc: compiler, optimize: false, runs: 0 },
        ),
{
    lemma_config_round_trip(
        ConfigV { name, license: upper_of(license), solc: compiler, optimize: false, runs: 0 },
    );
}

// ---------------------------------------------------------------------
// Rendering (executable)
// ---------------------------------------------------------------------
/// Append a fixed piece of text.
fn emit_lit(out: &mut Vec<char>, lit: &str)
    ensures
        final(out)@ == old(out)@ + lit@,
{
    let n = lit.unicode_len();
    let mut i: usize = 0;
    while i < n
        invariant
            i <= n,
            n == lit@.len(),
            out@ == old(out)@ + lit@.subrange(0, i as int),
        decreases n - i,
    {
        out.push(lit.get_char(i));
        i = i + 1;
        proof {
            assert(out@ =~= old(out)@ + lit@.subrange(0, i as int));
        }
    }
    proof {
        assert(out@ =~= old(out)@ + lit@);
    }
}

/// Append a string value in its escaped written form.
fn emit_escaped(out: &mut Vec<char>, s: &Vec<char>)
    ensures
        final(out)@ == old(out)@ + escape_chars(s@),
{
    let mut i: usize = 0;
    while i < s.len()
        invariant
            i <= s@.len(),
            out@ == old(out)@ + escape_chars(s@.subrange(0, i as int)),
        decreases s@.len() - i,
    {
        let c = s[i];
        if c == '"' || c == '\\' {
            out.push('\\');
            out.push(c);
        } else {
            out.push(c);
        }
        i = i + 1;
        proof {
            let pre = s@.subrange(0, i as int);
            assert(pre.drop_last() =~= s@.subrange(0, i - 1));
            assert(pre.last() == c);
            assert(out@ =~= old(out)@ + escape_chars(pre));
        }
    }
    proof {
        assert(s@.subrange(0, s@.len() as int) =~= s@);
    }
}

/// The character for a digit value below ten.
fn digit_char_exec(d: u64) -> (r: char)
    requires
        d < 10,
    ensures
        r == digit_char(d as int),
{
    if d == 0 {
        '0'
    } else if d == 1 {
        '1'
    } else if d == 2 {
        '2'
    } else if d == 3 {
        '3'
    } else if d == 4 {
        '4'
    } else if d == 5 {
        '5'
    } else if d == 6 {
        '6'
    } else if d == 7 {
        '7'
    } else if d == 8 {
        '8'
    } else {
        '9'
    }
}

/// Append the decimal digits of `n`.
fn emit_u(out: &mut Vec<char>, n: u64)
    ensures
        final(out)@ == old(out)@ + u_digits(n as nat),
{
    if n == 0 {
        out.push('0');
        proof {
            assert(u_digits(0) =~= seq!['0']);
            assert(out@ =~= old(out)@ + u_digits(0));
        }
        return ;
    }
    let mut tmp: Vec<char> = Vec::new();
    let mut m = n;
    while m > 0
        invariant
            m > 0 ==> u_digits(n as nat) == u_digits(m as nat) + tmp@.reverse(),
            m == 0 ==> u_digits(n as nat) == tmp@.reverse(),
        decreases m,
    {
        let d = m % 10;
        tmp.push(digit_char_exec(d));
        proof {
            if m >= 10 {
                assert(u_digits(m as nat) == u_digits((m as nat) / 10).push(
                    digit_char(((m as nat) % 10) as int),
                ));
                assert(u_digits((m as nat) / 10) + tmp@.reverse() =~= u_digits(m as nat)
                    + tmp@.drop_last().reverse());
                assert((m / 10) as nat == (m as nat) / 10);
            } else {
                assert(u_digits(m as nat) =~= seq![digit_char(m as int)]);
                assert(tmp@.reverse() =~= u_digits(m as nat) + tmp@.drop_last().reverse());
            }
        }
        m = m / 10;
    }
    let k = tmp.len();
    let mut i: usize = 0;
    while i < k
        invariant
            i <= k,
            k == tmp@.len(),
            out@ == old(out)@ + tmp@.reverse().subrange(0, i as int),
        decreases k - i,
    {
        out.push(tmp[k - 1 - i]);
        i = i + 1;
        proof {
            assert(tmp@.reverse()[i - 1] == tmp@[k - i]);
            assert(out@ =~= old(out)@ + tmp@.reverse().subrange(0, i as int));
        }
    }
    proof {
        assert(tmp@.reverse().subrange(0, k as int) =~= tmp@.reverse());
    }
}

/// Append an integer in its written form.
fn emit_int(out: &mut Vec<char>, v: i64)
    ensures
        final(out)@ == old(out)@ + fmt_int(v as int),
{
    if v < 0 {
        out.push('-');
        let mag: u64 = if v == i64::MIN {
            9223372036854775808u64
        } else {
            (-v) as u64
        };
        emit_u(out, mag);
        proof {
            assert(out@ =~= old(out)@ + (seq!['-'] + u_digits(mag as nat)));
        }
    } else {
        emit_u(out, v as u64);
    }
}

/// An integer in its written decimal form.
pub fn int_text(v: i64) -> (r: String)
    ensures
        r@ == fmt_int(v as int),
{
    let mut out: Vec<char> = Vec::new();
    emit_int(&mut out, v);
    proof {
        assert(out@ =~= fmt_int(v as int));
    }
    crate::text::chars_to_string(&out)
}

/// The written form of what `str::to_uppercase` returns.
pub uninterp spec fn upper_of(s: Seq<char>) -> Seq<char>;

/// Relies on str::to_uppercase: the result is the Unicode uppercase form
/// of the input and depends on the input characters alone.
#[verifier::external_body]
fn to_upper(s: &str) -> (r: String)
    ensures
        r@ == upper_of(s@),
{
    s.to_uppercase()
}

/// Render the configuration document for `c`.
pub fn config_encode(c: &Config) -> (r: String)
    ensures
        r@ == encode_config_chars(c@),
{
    let mut out: Vec<char> = Vec::new();
    emit_lit(&mut out, "[info]\nname = \"");
    let name_chars = crate::text::str_to_chars(c.info.name.as_str());
    emit_escaped(&mut out, &name_chars);
    out.push('"');
    emit_lit(&mut out, "\nlicense = \"");
    let license_chars = crate::text::str_to_chars(c.info.license.as_str());
    emit_escaped(&mut out, &license_chars);
    out.push('"');
    emit_lit(&mut out, "\n\n[compiler]\nsolc = \"");
    let solc_chars = crate::text::str_to_chars(c.compiler.solc.as_str());
    emit_escaped(&mut out, &solc_chars);
    out.push('"');
    emit_lit(&mut out, "\noptimize = ");
    if c.compiler.optimize {
        emit_lit(&mut out, "true");
    } else {
        emit_lit(&mut out, "false");
    }
    emit_lit(&mut out, "\nruns = ");
    emit_int(&mut out, c.compiler.runs);
    emit_lit(&mut out, "\n");
    proof {
        assert(out@ =~= encode_config_chars(c@));
    }
    crate::text::chars_to_string(&out)
}

/// Build the configuration for a fresh project — license upper-cased,
/// optimization off, zero optimizer runs — and render its document.
pub fn config_new(name: &str, compiler: &str, license: &str) -> (r: String)
    ensures
        r@ == encode_config_chars(
            ConfigV {
                name: name@,
                license: upper_of(license@),
                solc: compiler@,
                optimize: false,
                runs: 0,
            },
        ),
{
    let config = Config {
        info: ConfigInfo { name: String::from_str(name), license: to_upper(license) },
        compiler: ConfigCompiler { solc: String::from_str(compiler), optimize: false, runs: 0 },
    };
    config_encode(&config)
}

/// The source text of a fresh contract: an SPDX line for the license, the
/// pragma, and an empty contract with the given name.
pub open spec fn solidity_chars(name: Seq<char>, license: Seq<char>) -> Seq<char> {
    "// SPDX-License-Identifier: "@ + license + "\n\npragma solidity ^0.8.10;\n\ncontract "@ + name
        + " {\n    constructor() {}\n}"@
}

/// Render the source stub for a new contract.
pub fn solidity_new(name: &str, license: &str) -> (r: String)
    ensures
        r@ == solidity_chars(name@, license@),
{
    let mut r = String::new();
    r.append("// SPDX-License-Identifier: ");
    r.append(license);
    r.append("\n\npragma solidity ^0.8.10;\n\ncontract ");
    r.append(name);
    r.append(" {\n    constructor() {}\n}");
    r
}

// ---------------------------------------------------------------------
// Parsing (executable)
// ---------------------------------------------------------------------
/// A configuration document that does not parse.
#[derive(Clone, Copy, Debug, PartialEq, Eq, Structural)]
pub enum DecodeError {
    Malformed,
}

/// Match a fixed piece of text at position `i`.
fn match_lit(v: &Vec<char>, i: usize, lit: &str) -> (r: Option<usize>)
    requires
        i <= v@.len(),
    ensures
        match r {
            Some(j) => i <= j <= v@.len() && p_lit(v@.skip(i as int), lit@) == Some(
                v@.skip(j as int),
            ),
            None => p_lit(v@.skip(i as int), lit@) is None,
        },
{
    let n = lit.unicode_len();
    if n > v.len() - i {
        proof {
            assert(v@.skip(i as int).len() == v@.len() - i);
        }
        return None;
    }
    let mut j: usize = 0;
    while j < n
        invariant
            j <= n,
            n == lit@.len(),
            i + n <= v@.len() <= usize::MAX,
            forall|m: int| 0 <= m < j ==> #[trigger] v@.skip(i as int)[m] == lit@[m],
        decreases n - j,
    {
        if v[i + j] != lit.get_char(j) {
            proof {
                let s = v@.skip(i as int);
                assert(s.take(n as int)[j as int] == s[j as int]);
                assert(s[j as int] == v@[i + j]);
            }
            return None;
        }
        proof {
            assert(v@.skip(i as int)[j as int] == v@[i + j]);
        }
        j = j + 1;
    }
    proof {
        let s = v@.skip(i as int);
        assert(s.take(n as int) =~= lit@);
        assert(s.skip(n as int) =~= v@.skip(i + n));
    }
    Some(i + n)
}

/// Parse a quoted value at position `i` (just after its opening quote):
/// the position after the closing quote and the value's characters.
#[verifier::loop_isolation(false)]
fn parse_string(v: &Vec<char>, i: usize) -> (r: Option<(usize, Vec<char>)>)
    requires
        i <= v@.len(),
    ensures
        match r {
            Some(p) => i <= p.0 <= v@.len() && p_str(v@.skip(i as int)) == Some(
                (p.1@, v@.skip(p.0 as int)),
            ),
            None => p_str(v@.skip(i as int)) is None,
        },
{
    let n = v.len();
    let mut j = i;
    let mut acc: Vec<char> = Vec::new();
    while j < n
        invariant
            i <= j <= v@.len() <= usize::MAX,
            p_str(v@.skip(j as int)) matches Some(tr) ==> p_str(v@.skip(i as int)) == Some(
                (acc@ + tr.0, tr.1),
            ),
            p_str(v@.skip(j as int)) is None ==> p_str(v@.skip(i as int)) is None,
        decreases v@.len() - j,
    {
        let c = v[j];
        proof {
            assert(v@.skip(j as int)[0] == v@[j as int]);
        }
        if c == '"' {
            proof {
                assert(v@.skip(j as int).drop_first() =~= v@.skip(j + 1));
                assert(p_str(v@.skip(j as int)) == Some(
                    (Seq::<char>::empty(), v@.skip(j + 1)),
                ));
                assert(acc@ + Seq::<char>::empty() =~= acc@);
            }
            return Some((j + 1, acc));
        } else if c == '\\' {
            if j + 1 >= v.len() {
                proof {
                    assert(v@.skip(j as int).len() < 2);
                }
                return None;
            }
            let e = v[j + 1];
            proof {
                assert(v@.skip(j as int)[1] == v@[j + 1]);
            }
            if e == '"' || e == '\\' {
                acc.push(e);
                proof {
                    assert(v@.skip(j as int).skip(2) =~= v@.skip(j + 2));
                    if p_str(v@.skip(j + 2)) is Some {
                        let tr = p_str(v@.skip(j + 2)).unwrap();
                        assert(p_str(v@.skip(j as int)) == Some((seq![e] + tr.0, tr.1)));
                        assert(acc@.drop_last() + (seq![e] + tr.0) =~= acc@ + tr.0);
                    }
                }
                j = j + 2;
            } else {
                return None;
            }
        } else {
            acc.push(c);
            proof {
                assert(v@.skip(j as int).drop_first() =~= v@.skip(j + 1));
                if p_str(v@.skip(j + 1)) is Some {
                    let tr = p_str(v@.skip(j + 1)).unwrap();
                    assert(p_str(v@.skip(j as int)) == Some((seq![c] + tr.0, tr.1)));
                    assert(acc@.drop_last() + (seq![c] + tr.0) =~= acc@ + tr.0);
                }
            }
            j = j + 1;
        }
    }
    proof {
        assert(v@.skip(j as int).len() == 0);
    }
    None
}

/// Parse a boolean at position `i`.
fn parse_bool(v: &Vec<char>, i: usize) -> (r: Option<(bool, usize)>)
    requires
        i <= v@.len(),
    ensures
        match r {
            Some(p) => p.1 <= v@.len() && p_bool(v@.skip(i as int)) == Some(
                (p.0, v@.skip(p.1 as int)),
            ),
            None => p_bool(v@.skip(i as int)) is None,
        },
{
    match match_lit(v, i, "true") {
        Some(j) => Some((true, j)),
        None => match match_lit(v, i, "false") {
            Some(j) => Some((false, j)),
            None => None,
        },
    }
}

/// Whether `c` is a decimal digit.
fn is_digit_exec(c: char) -> (r: bool)
    ensures
        r == is_digit(c),
{
    c == '0' || c == '1' || c == '2' || c == '3' || c == '4' || c == '5' || c == '6' || c == '7'
        || c == '8' || c == '9'
}

/// The value of a digit character.
fn digit_of(c: char) -> (r: u64)
    requires
        is_digit(c),
    ensures
        r == digit_val(c),
        r < 10,
{
    if c == '0' {
        0
    } else if c == '1' {
        1
    } else if c == '2' {
        2
    } else if c == '3' {
        3
    } else if c == '4' {
        4
    } else if c == '5' {
        5
    } else if c == '6' {
        6
    } else if c == '7' {
        7
    } else if c == '8' {
        8
    } else {
        9
    }
}

/// Parse an integer that fits in `i64` at position `i`.
#[verifier::loop_isolation(false)]
#[verifier::rlimit(80)]
fn parse_int(v: &Vec<char>, i: usize) -> (r: Option<(i64, usize)>)
    requires
        i <= v@.len(),
    ensures
        match r {
            Some(p) => i <= p.1 <= v@.len() && p_int(v@.skip(i as int)) == Some(
                (p.0 as int, v@.skip(p.1 as int)),
            ),
            None => p_int(v@.skip(i as int)) is None,
        },
{
    let ghost s = v@.skip(i as int);
    let mut start = i;
    let mut neg = false;
    if start < v.len() {
        proof {
            assert(s[0] == v@[i as int]);
        }
        if v[start] == '-' {
            neg = true;
            start = start + 1;
        }
    }
    proof {
        if neg {
            assert(s.drop_first() =~= v@.skip(start as int));
        } else {
            assert(s =~= v@.skip(start as int));
        }
    }
    let ghost body = v@.skip(start as int);
    // find the end of the digit run
    let n = v.len();
    let mut j = start;
    let mut done = false;
    while !done
        invariant
            start <= j <= n,
            forall|m: int| start <= m < j ==> is_digit(#[trigger] v@[m]),
            done ==> j == n || !is_digit(v@[j as int]),
        decreases n - j + (if done { 0int } else { 1int }),
    {
        if j == n {
            done = true;
        } else if !is_digit_exec(v[j]) {
            done = true;
        } else {
            j = j + 1;
        }
    }
    let ghost run = v@.subrange(start as int, j as int);
    let ghost rest = v@.skip(j as int);
    proof {
        assert(run + rest =~= body);
        assert(j == v@.len() || !is_digit(v@[j as int]));
        if j < v@.len() {
            assert(rest[0] == v@[j as int]);
        }
        lemma_digits_len_exact(run, rest);
        assert(digits_len(body) == j - start);
    }
    if j == start {
        return None;
    }
    // accumulate the value, refusing anything outside i64
    let mut acc: u64 = 0;
    let mut k = start;
    while k < j
        invariant
            start <= k <= j <= v@.len() <= usize::MAX,
            run == v@.subrange(start as int, j as int),
            forall|m: int| start <= m < j ==> is_digit(#[trigger] v@[m]),
            acc == digits_val(v@.subrange(start as int, k as int)),
            acc <= 9223372036854775809u64,
        decreases j - k,
    {
        if acc > 922337203685477580u64 {
            proof {
                let pre = v@.subrange(start as int, k as int);
                assert(run.take(k - start) =~= pre);
                lemma_digits_val_prefix(run, k - start);
                assert(digits_val(run) >= digits_val(pre) * 10);
                assert(digits_val(pre) * 10 >= 9223372036854775810) by (nonlinear_arith)
                    requires
                        digits_val(pre) >= 922337203685477581,
                ;
                assert(body.take(digits_len(body)) =~= run);
            }
            return None;
        }
        let d = digit_of(v[k]);
        acc = acc * 10 + d;
        k = k + 1;
        proof {
            let pre = v@.subrange(start as int, k as int);
            assert(pre.drop_last() =~= v@.subrange(start as int, k - 1));
            assert(pre.last() == v@[k - 1]);
        }
    }
    proof {
        assert(v@.subrange(start as int, k as int) =~= run);
        assert(body.take(digits_len(body)) =~= run);
        assert(body.skip(digits_len(body)) =~= rest);
    }
    if neg {
        if acc > 9223372036854775808u64 {
            return None;
        }
        let x: i64 = if acc == 9223372036854775808u64 {
            i64::MIN
        } else {
            -(acc as i64)
        };
        Some((x, j))
    } else {
        if acc > 9223372036854775807u64 {
            return None;
        }
        Some((acc as i64, j))
    }
}

/// Parse a configuration document back into a `Config`.
pub fn config_decode(config_string: &str) -> (r: Result<Config, DecodeError>)
    ensures
        match r {
            Ok(c) => parse_config_chars(config_string@) == Some(c@),
            Err(_) => parse_config_chars(config_string@) is None,
        },
{
    let v = crate::text::str_to_chars(config_string);
    proof {
        assert(v@.skip(0) =~= v@);
    }
    let i1 = match match_lit(&v, 0, "[info]\nname = \"") {
        Some(j) => j,
        None => {
            return Err(DecodeError::Malformed);
        },
    };
    let (i2, name) = match parse_string(&v, i1) {
        Some(p) => p,
        None => {
            return Err(DecodeError::Malformed);
        },
    };
    let i3 = match match_lit(&v, i2, "\nlicense = \"") {
        Some(j) => j,
        None => {
            return Err(DecodeError::Malformed);
        },
    };
    let (i4, license) = match parse_string(&v, i3) {
        Some(p) => p,
        None => {
            return Err(DecodeError::Malformed);
        },
    };
    let i5 = match match_lit(&v, i4, "\n\n[compiler]\nsolc = \"") {
        Some(j) => j,
        None => {
            return Err(DecodeError::Malformed);
        },
    };
    let (i6, solc) = match parse_string(&v, i5) {
        Some(p) => p,
        None => {
            return Err(DecodeError::Malformed);
        },
    };
    let i7 = match match_lit(&v, i6, "\noptimize = ") {
        Some(j) => j,
        None => {
            return Err(DecodeError::Malformed);
        },
    };
    let (optimize, i8) = match parse_bool(&v, i7) {
        Some(p) => p,
        None => {
            return Err(DecodeError::Malformed);
        },
    };
    let i9 = match match_lit(&v, i8, "\nruns = ") {
        Some(j) => j,
        None => {
            return Err(DecodeError::Malformed);
        },
    };
    let (runs, i10) = match parse_int(&v, i9) {
        Some(p) => p,
        None => {
            return Err(DecodeError::Malformed);
        },
    };
    let i11 = match match_lit(&v, i10, "\n") {
        Some(j) => j,
        None => {
            return Err(DecodeError::Malformed);
        },
    };
    if i11 != v.len() {
        proof {
            assert(v@.skip(i11 as int).len() > 0);
        }
        return Err(DecodeError::Malformed);
    }
    proof {
        assert(v@.skip(i11 as int).len() == 0);
    }
    Ok(
        Config {
            info: ConfigInfo {
                name: crate::text::chars_to_string(&name),
                license: crate::text::chars_to_string(&license),
            },
            compiler: ConfigCompiler {
                solc: crate::text::chars_to_string(&solc),
                optimize,
                runs,
            },
        },
    )
}

} // verus!
