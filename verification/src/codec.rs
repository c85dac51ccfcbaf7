//! Character-level machinery of the configuration file format: whitespace
//! skipping, literal matching, and quoted strings with escapes, each as a
//! spec-level parser with an executable counterpart proved against it.
//!
//! Escaping and parsing invert one another; the inversion lemmas here carry
//! the round-trip proof of the whole document format.

use vstd::prelude::*;
use vstd::string::*;

use crate::push_char;

verus! {

/// The whitespace characters the parser skips between tokens.
pub open spec fn is_ws(c: char) -> bool {
    c == ' ' || c == '\n' || c == '\r' || c == '\t'
}

/// How one character is written inside a quoted string: quotes, backslashes
/// and the common control characters get a two-character escape, everything
/// else stands as itself.
pub open spec fn esc_char(c: char) -> Seq<char> {
    if c == '"' {
        seq!['\\', '"']
    } else if c == '\\' {
        seq!['\\', '\\']
    } else if c == '\n' {
        seq!['\\', 'n']
    } else if c == '\r' {
        seq!['\\', 'r']
    } else if c == '\t' {
        seq!['\\', 't']
    } else {
        seq![c]
    }
}

/// The escaped form of a whole string.
pub open spec fn esc_str(s: Seq<char>) -> Seq<char>
    decreases s.len(),
{
    if s.len() == 0 {
        Seq::empty()
    } else {
        esc_char(s[0]) + esc_str(s.drop_first())
    }
}

/// The quoted, escaped form of a string value.
pub open spec fn enc_string(s: Seq<char>) -> Seq<char> {
    seq!['"'] + esc_str(s) + seq!['"']
}

/// The character an escape code stands for, if the code is valid.
pub open spec fn unesc_char(c: char) -> Option<char> {
    if c == '"' {
        Some('"')
    } else if c == '\\' {
        Some('\\')
    } else if c == '/' {
        Some('/')
    } else if c == 'n' {
        Some('\n')
    } else if c == 'r' {
        Some('\r')
    } else if c == 't' {
        Some('\t')
    } else {
        None
    }
}

/// The first position at or after `i` that holds no whitespace.
pub open spec fn skip_ws(s: Seq<char>, i: int) -> int
    decreases s.len() - i,
    when 0 <= i <= s.len()
{
    if i < s.len() && is_ws(s[i]) {
        skip_ws(s, i + 1)
    } else {
        i
    }
}

pub proof fn lemma_skip_ws_bounds(s: Seq<char>, i: int)
    requires
        0 <= i <= s.len(),
    ensures
        i <= skip_ws(s, i) <= s.len(),
        skip_ws(s, i) < s.len() ==> !is_ws(s[skip_ws(s, i)]),
    decreases s.len() - i,
{
    if i < s.len() && is_ws(s[i]) {
        lemma_skip_ws_bounds(s, i + 1);
    }
}

/// Skipping stops exactly at the end of a known whitespace run.
pub proof fn lemma_skip_ws_run(s: Seq<char>, i: int, j: int)
    requires
        0 <= i <= j <= s.len(),
        forall|k: int| i <= k < j ==> is_ws(#[trigger] s[k]),
        j == s.len() || !is_ws(s[j]),
    ensures
        skip_ws(s, i) == j,
    decreases j - i,
{
    if i < j {
        assert(is_ws(s[i]));
        lemma_skip_ws_run(s, i + 1, j);
    }
}

/// After optional whitespace, the single character `c`.
pub open spec fn expect_char(s: Seq<char>, i: int, c: char) -> Option<int> {
    let j = skip_ws(s, i);
    if j < s.len() && s[j] == c {
        Some(j + 1)
    } else {
        None
    }
}

/// After optional whitespace, the exact text `lit`.
pub open spec fn expect_lit(s: Seq<char>, i: int, lit: Seq<char>) -> Option<int> {
    let j = skip_ws(s, i);
    if j + lit.len() <= s.len() && s.subrange(j, j + lit.len()) == lit {
        Some(j + lit.len())
    } else {
        None
    }
}

pub proof fn lemma_expect_char_bounds(s: Seq<char>, i: int, c: char)
    requires
        0 <= i <= s.len(),
        expect_char(s, i, c) is Some,
    ensures
        i < expect_char(s, i, c).unwrap() <= s.len(),
{
    lemma_skip_ws_bounds(s, i);
}

pub proof fn lemma_expect_lit_bounds(s: Seq<char>, i: int, lit: Seq<char>)
    requires
        0 <= i <= s.len(),
        expect_lit(s, i, lit) is Some,
    ensures
        i <= expect_lit(s, i, lit).unwrap() <= s.len(),
        lit.len() > 0 ==> i < expect_lit(s, i, lit).unwrap(),
{
    lemma_skip_ws_bounds(s, i);
}

/// The inside of a quoted string from position `i` (just after the opening
/// quote): the decoded characters and the position just after the closing
/// quote.
pub open spec fn parse_str_body(s: Seq<char>, i: int) -> Option<(Seq<char>, int)>
    decreases s.len() - i,
    when 0 <= i <= s.len()
{
    if i == s.len() {
        None
    } else if s[i] == '"' {
        Some((Seq::empty(), i + 1))
    } else if s[i] == '\\' {
        if i + 1 < s.len() {
            match unesc_char(s[i + 1]) {
                Some(c) => match parse_str_body(s, i + 2) {
                    Some((t, j)) => Some((seq![c] + t, j)),
                    None => None,
                },
                None => None,
            }
        } else {
            None
        }
    } else {
        match parse_str_body(s, i + 1) {
            Some((t, j)) => Some((seq![s[i]] + t, j)),
            None => None,
        }
    }
}

pub proof fn lemma_parse_str_body_bounds(s: Seq<char>, i: int)
    requires
        0 <= i <= s.len(),
        parse_str_body(s, i) is Some,
    ensures
        i < parse_str_body(s, i).unwrap().1 <= s.len(),
    decreases s.len() - i,
{
    if i == s.len() {
    } else if s[i] == '"' {
    } else if s[i] == '\\' {
        if i + 1 < s.len() && unesc_char(s[i + 1]) is Some {
            lemma_parse_str_body_bounds(s, i + 2);
        }
    } else {
        lemma_parse_str_body_bounds(s, i + 1);
    }
}

/// A complete string value: optional whitespace, a quote, the body.
pub open spec fn parse_string(s: Seq<char>, i: int) -> Option<(Seq<char>, int)> {
    let j = skip_ws(s, i);
    if j < s.len() && s[j] == '"' {
        parse_str_body(s, j + 1)
    } else {
        None
    }
}

pub proof fn lemma_parse_string_bounds(s: Seq<char>, i: int)
    requires
        0 <= i <= s.len(),
        parse_string(s, i) is Some,
    ensures
        i < parse_string(s, i).unwrap().1 <= s.len(),
{
    lemma_skip_ws_bounds(s, i);
    let j = skip_ws(s, i);
    lemma_parse_str_body_bounds(s, j + 1);
}

pub open spec fn lit_true() -> Seq<char> {
    seq!['t', 'r', 'u', 'e']
}

pub open spec fn lit_false() -> Seq<char> {
    seq!['f', 'a', 'l', 's', 'e']
}

/// A boolean value: the word `true` or the word `false`.
pub open spec fn parse_bool(s: Seq<char>, i: int) -> Option<(bool, int)> {
    if expect_lit(s, i, lit_true()) is Some {
        Some((true, expect_lit(s, i, lit_true()).unwrap()))
    } else if expect_lit(s, i, lit_false()) is Some {
        Some((false, expect_lit(s, i, lit_false()).unwrap()))
    } else {
        None
    }
}

pub proof fn lemma_parse_bool_bounds(s: Seq<char>, i: int)
    requires
        0 <= i <= s.len(),
        parse_bool(s, i) is Some,
    ensures
        i < parse_bool(s, i).unwrap().1 <= s.len(),
{
    if expect_lit(s, i, lit_true()) is Some {
        lemma_expect_lit_bounds(s, i, lit_true());
    } else {
        lemma_expect_lit_bounds(s, i, lit_false());
    }
}

// ------------------------------------------------------------------
// Inversion: parsing what the encoder wrote gives back the value.
// ------------------------------------------------------------------

/// Parsing a string body over the escaped text followed by a closing quote
/// decodes exactly the characters that were escaped.
pub proof fn lemma_parse_str_body_inv(s: Seq<char>, i: int, x: Seq<char>)
    requires
        0 <= i,
        i + esc_str(x).len() + 1 <= s.len(),
        s.subrange(i, i + esc_str(x).len() + 1) == esc_str(x) + seq!['"'],
    ensures
        parse_str_body(s, i) == Some((x, i + esc_str(x).len() + 1)),
    decreases x.len(),
{
    let e = esc_str(x);
    if x.len() == 0 {
        assert(s[i] == (e + seq!['"'])[0]);
        assert(s[i] == '"');
        assert(parse_str_body(s, i) == Some((Seq::<char>::empty(), i + 1)));
        assert(x =~= Seq::<char>::empty());
    } else {
        let c = x[0];
        let ec = esc_char(c);
        let rest = x.drop_first();
        assert(e == ec + esc_str(rest));
        // The recursive position and its subrange hypothesis.
        let i2 = i + ec.len();
        assert forall|k: int| 0 <= k < esc_str(rest).len() + 1 implies s.subrange(
            i2,
            i2 + esc_str(rest).len() + 1,
        )[k] == (esc_str(rest) + seq!['"'])[k] by {
            assert(s[i2 + k] == (e + seq!['"'])[ec.len() + k]);
        }
        assert(s.subrange(i2, i2 + esc_str(rest).len() + 1) =~= esc_str(rest) + seq!['"']);
        lemma_parse_str_body_inv(s, i2, rest);
        if c == '"' || c == '\\' || c == '\n' || c == '\r' || c == '\t' {
            assert(ec.len() == 2);
            assert(s[i] == (e + seq!['"'])[0]);
            assert(s[i + 1] == (e + seq!['"'])[1]);
            assert(s[i] == '\\');
            assert(unesc_char(s[i + 1]) == Some(c));
            assert(parse_str_body(s, i) == Some((seq![c] + rest, i2 + esc_str(rest).len() + 1)));
            assert(seq![c] + rest =~= x);
        } else {
            assert(ec.len() == 1);
            assert(s[i] == (e + seq!['"'])[0]);
            assert(s[i] == c);
            assert(s[i] != '"' && s[i] != '\\');
            assert(parse_str_body(s, i) == Some((seq![s[i]] + rest, i2 + esc_str(rest).len() + 1)));
            assert(seq![c] + rest =~= x);
        }
    }
}

/// Parsing a string value over the quoted, escaped form of `x` gives `x`.
pub proof fn lemma_parse_string_inv(s: Seq<char>, i: int, x: Seq<char>)
    requires
        0 <= i <= s.len(),
        skip_ws(s, i) + enc_string(x).len() <= s.len(),
        s.subrange(skip_ws(s, i), skip_ws(s, i) + enc_string(x).len()) == enc_string(x),
    ensures
        parse_string(s, i) == Some((x, skip_ws(s, i) + enc_string(x).len())),
{
    lemma_skip_ws_bounds(s, i);
    let j = skip_ws(s, i);
    let n = enc_string(x).len();
    assert(s[j] == s.subrange(j, j + n)[0]);
    assert(s[j] == '"');
    assert forall|k: int| 0 <= k < esc_str(x).len() + 1 implies s.subrange(
        j + 1,
        j + 1 + esc_str(x).len() + 1,
    )[k] == (esc_str(x) + seq!['"'])[k] by {
        assert(s[j + 1 + k] == s.subrange(j, j + n)[1 + k]);
        assert(enc_string(x)[1 + k] == (esc_str(x) + seq!['"'])[k]);
    }
    assert(s.subrange(j + 1, j + 1 + esc_str(x).len() + 1) =~= esc_str(x) + seq!['"']);
    lemma_parse_str_body_inv(s, j + 1, x);
}

// ------------------------------------------------------------------
// Executable counterparts.
// ------------------------------------------------------------------

/// Executable whitespace skipping.
pub fn skip_ws_exec(s: &str, n: usize, i: usize) -> (r: usize)
    requires
        n == s@.len(),
        i <= n,
    ensures
        r as int == skip_ws(s@, i as int),
        i <= r <= n,
{
    let mut j: usize = i;
    loop
        invariant
            n == s@.len(),
            i <= j <= n,
            skip_ws(s@, i as int) == skip_ws(s@, j as int),
        ensures
            i <= j <= n,
            skip_ws(s@, i as int) == j as int,
        decreases n - j,
    {
        if j == n {
            break ;
        }
        let c = s.get_char(j);
        if !(c == ' ' || c == '\n' || c == '\r' || c == '\t') {
            break ;
        }
        j = j + 1;
    }
    j
}

/// Whether the exact text `lit` (of character length `m`) stands at
/// position `j` of `s`.
pub fn match_lit_at(s: &str, n: usize, j: usize, lit: &str, m: usize) -> (r: bool)
    requires
        n == s@.len(),
        j <= n,
        m == lit@.len(),
    ensures
        r == (j + m <= n && s@.subrange(j as int, j as int + m as int) == lit@),
{
    if m > n - j {
        return false;
    }
    let mut k: usize = 0;
    while k < m
        invariant
            n == s@.len(),
            m == lit@.len(),
            j + m <= n,
            k <= m,
            forall|t: int| 0 <= t < k ==> s@[j + t] == #[trigger] lit@[t],
        decreases m - k,
    {
        let a = s.get_char(j + k);
        let b = lit.get_char(k);
        if a != b {
            proof {
                assert(s@.subrange(j as int, j as int + m as int)[k as int] != lit@[k as int]);
            }
            return false;
        }
        k = k + 1;
    }
    proof {
        assert(s@.subrange(j as int, j as int + m as int) =~= lit@);
    }
    true
}

/// Executable counterpart of `expect_char`.
pub fn expect_char_exec(s: &str, n: usize, i: usize, c: char) -> (r: Option<usize>)
    requires
        n == s@.len(),
        i <= n,
    ensures
        match r {
            Some(k) => expect_char(s@, i as int, c) == Some(k as int) && i < k <= n,
            None => expect_char(s@, i as int, c) is None,
        },
{
    let j = skip_ws_exec(s, n, i);
    if j < n && s.get_char(j) == c {
        Some(j + 1)
    } else {
        None
    }
}

/// Executable counterpart of `expect_lit`.
pub fn expect_lit_exec(s: &str, n: usize, i: usize, lit: &str, m: usize) -> (r: Option<usize>)
    requires
        n == s@.len(),
        i <= n,
        m == lit@.len(),
    ensures
        match r {
            Some(k) => expect_lit(s@, i as int, lit@) == Some(k as int) && i <= k <= n,
            None => expect_lit(s@, i as int, lit@) is None,
        },
{
    let j = skip_ws_exec(s, n, i);
    if match_lit_at(s, n, j, lit, m) {
        Some(j + m)
    } else {
        None
    }
}

/// Relates a partially decoded string body to the whole one: what parsing
/// yields from `i` is `acc` followed by whatever parsing yields from `j`.
pub open spec fn str_body_step(s: Seq<char>, i: int, acc: Seq<char>, j: int) -> bool {
    parse_str_body(s, i) == match parse_str_body(s, j) {
        Some((t, k)) => Some((acc + t, k)),
        None => None,
    }
}

fn unesc_char_exec(c: char) -> (r: Option<char>)
    ensures
        r == unesc_char(c),
{
    if c == '"' {
        Some('"')
    } else if c == '\\' {
        Some('\\')
    } else if c == '/' {
        Some('/')
    } else if c == 'n' {
        Some('\n')
    } else if c == 'r' {
        Some('\r')
    } else if c == 't' {
        Some('\t')
    } else {
        None
    }
}

/// Executable counterpart of `parse_str_body`.
pub fn parse_str_body_exec(s: &str, n: usize, i: usize) -> (r: Option<(String, usize)>)
    requires
        n == s@.len(),
        i <= n,
    ensures
        match r {
            Some(p) => parse_str_body(s@, i as int) == Some((p.0@, p.1 as int)) && i < p.1 <= n,
            None => parse_str_body(s@, i as int) is None,
        },
{
    let mut out = String::new();
    let mut j: usize = i;
    proof {
        if parse_str_body(s@, i as int) is Some {
            let (t, k) = parse_str_body(s@, i as int).unwrap();
            assert(Seq::<char>::empty() + t =~= t);
        }
    }
    loop
        invariant
            n == s@.len(),
            i <= j <= n,
            str_body_step(s@, i as int, out@, j as int),
        ensures
            match parse_str_body(s@, j as int) {
                Some((t, k)) => parse_str_body(s@, i as int) == Some((out@ + t, k)),
                None => parse_str_body(s@, i as int) is None,
            },
            i <= j <= n,
            (j < n && (s@[j as int] == '"' && parse_str_body(s@, j as int) == Some(
                (Seq::<char>::empty(), j + 1 as int),
            ))) || parse_str_body(s@, j as int) is None,
        decreases n - j,
    {
        if j == n {
            break ;
        }
        let c = s.get_char(j);
        if c == '"' {
            break ;
        }
        if c == '\\' {
            if j + 1 == n {
                break ;
            }
            let e = s.get_char(j + 1);
            match unesc_char_exec(e) {
                None => {
                    break ;
                },
                Some(uc) => {
                    proof {
                        if parse_str_body(s@, j + 2 as int) is Some {
                            let (t, k) = parse_str_body(s@, j + 2 as int).unwrap();
                            assert(out@ + (seq![uc] + t) =~= out@.push(uc) + t);
                        }
                    }
                    push_char(&mut out, uc);
                    j = j + 2;
                },
            }
        } else {
            proof {
                if parse_str_body(s@, j + 1 as int) is Some {
                    let (t, k) = parse_str_body(s@, j + 1 as int).unwrap();
                    assert(out@ + (seq![c] + t) =~= out@.push(c) + t);
                }
            }
            push_char(&mut out, c);
            j = j + 1;
        }
    }
    if j < n {
        let c = s.get_char(j);
        if c == '"' {
            proof {
                let (t, k) = parse_str_body(s@, j as int).unwrap();
                assert(out@ + Seq::<char>::empty() =~= out@);
            }
            return Some((out, j + 1));
        }
    }
    None
}

/// Executable counterpart of `parse_string`.
pub fn parse_string_exec(s: &str, n: usize, i: usize) -> (r: Option<(String, usize)>)
    requires
        n == s@.len(),
        i <= n,
    ensures
        match r {
            Some(p) => parse_string(s@, i as int) == Some((p.0@, p.1 as int)) && i < p.1 <= n,
            None => parse_string(s@, i as int) is None,
        },
{
    let j = skip_ws_exec(s, n, i);
    if j < n && s.get_char(j) == '"' {
        parse_str_body_exec(s, n, j + 1)
    } else {
        None
    }
}

/// Executable counterpart of `parse_bool`.
pub fn parse_bool_exec(s: &str, n: usize, i: usize) -> (r: Option<(bool, usize)>)
    requires
        n == s@.len(),
        i <= n,
    ensures
        match r {
            Some(p) => parse_bool(s@, i as int) == Some((p.0, p.1 as int)) && i < p.1 <= n,
            None => parse_bool(s@, i as int) is None,
        },
{
    proof {
        reveal_strlit("true");
        reveal_strlit("false");
        assert("true"@ =~= lit_true());
        assert("false"@ =~= lit_false());
    }
    match expect_lit_exec(s, n, i, "true", 4) {
        Some(k) => {
            proof {
                lemma_expect_lit_bounds(s@, i as int, lit_true());
            }
            Some((true, k))
        },
        None => match expect_lit_exec(s, n, i, "false", 5) {
            Some(k) => {
                proof {
                    lemma_expect_lit_bounds(s@, i as int, lit_false());
                }
                Some((false, k))
            },
            None => None,
        },
    }
}

} // verus!
