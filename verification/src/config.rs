//! The application configuration: its data model, the JSON document form it
//! is persisted in, and the initialization decision taken at startup.
//!
//! The document is an object with the keys `app_name`, `version` and `user`,
//! the last holding an array of per-user objects with the keys
//! `config_path`, `otp` and `otp_uri`. The encoder writes the document on
//! one line; the parser accepts any whitespace between tokens.

use vstd::prelude::*;
use vstd::string::*;

use crate::codec::enc_string;
use crate::codec::expect_char_exec;
use crate::codec::expect_lit_exec;
use crate::codec::parse_bool_exec;
use crate::codec::parse_string_exec;
use crate::codec::skip_ws_exec;
use crate::codec::esc_char;
use crate::codec::esc_str;
use crate::codec::expect_char;
use crate::codec::expect_lit;
use crate::codec::lemma_expect_char_bounds;
use crate::codec::lemma_expect_lit_bounds;
use crate::codec::lemma_parse_bool_bounds;
use crate::codec::lemma_parse_string_bounds;
use crate::codec::lemma_parse_string_inv;
use crate::codec::lemma_skip_ws_bounds;
use crate::codec::lemma_skip_ws_run;
use crate::codec::lit_false;
use crate::codec::lit_true;
use crate::codec::parse_bool;
use crate::codec::parse_string;
use crate::codec::skip_ws;
use crate::push_char;

verus! {

/// A single user's configuration settings.
#[derive(Clone, Debug, PartialEq, Eq)]
pub struct UserConfig {
    /// Path to the user's VPN configuration file.
    pub config_path: String,
    /// Whether a one-time password is required for this user.
    pub otp: bool,
    /// The one-time-password URI used for second-factor setup.
    pub otp_uri: String,
}

/// The full application configuration.
#[derive(Clone, Debug, PartialEq, Eq)]
pub struct Config {
    /// Name of the application.
    pub app_name: String,
    /// Version string of the application.
    pub version: String,
    /// List of user-specific configuration entries.
    pub user: Vec<UserConfig>,
}

/// Mathematical model of a user entry: its fields as plain values.
pub ghost struct UserConfigV {
    pub config_path: Seq<char>,
    pub otp: bool,
    pub otp_uri: Seq<char>,
}

/// Mathematical model of a configuration.
pub ghost struct ConfigV {
    pub app_name: Seq<char>,
    pub version: Seq<char>,
    pub user: Seq<UserConfigV>,
}

impl View for UserConfig {
    type V = UserConfigV;

    open spec fn view(&self) -> UserConfigV {
        UserConfigV { config_path: self.config_path@, otp: self.otp, otp_uri: self.otp_uri@ }
    }
}

/// The models of a sequence of user entries.
pub open spec fn users_view(v: Seq<UserConfig>) -> Seq<UserConfigV> {
    v.map_values(|u: UserConfig| u@)
}

impl View for Config {
    type V = ConfigV;

    open spec fn view(&self) -> ConfigV {
        ConfigV {
            app_name: self.app_name@,
            version: self.version@,
            user: users_view(self.user@),
        }
    }
}

// ------------------------------------------------------------------
// The document grammar: keys, separators, encoder.
// ------------------------------------------------------------------

pub open spec fn key_app_name() -> Seq<char> {
    seq!['"', 'a', 'p', 'p', '_', 'n', 'a', 'm', 'e', '"']
}

pub open spec fn key_version() -> Seq<char> {
    seq!['"', 'v', 'e', 'r', 's', 'i', 'o', 'n', '"']
}

pub open spec fn key_user() -> Seq<char> {
    seq!['"', 'u', 's', 'e', 'r', '"']
}

pub open spec fn key_config_path() -> Seq<char> {
    seq!['"', 'c', 'o', 'n', 'f', 'i', 'g', '_', 'p', 'a', 't', 'h', '"']
}

pub open spec fn key_otp() -> Seq<char> {
    seq!['"', 'o', 't', 'p', '"']
}

pub open spec fn key_otp_uri() -> Seq<char> {
    seq!['"', 'o', 't', 'p', '_', 'u', 'r', 'i', '"']
}

pub open spec fn sep_colon() -> Seq<char> {
    seq![':', ' ']
}

pub open spec fn sep_comma() -> Seq<char> {
    seq![',', ' ']
}

pub open spec fn enc_bool(b: bool) -> Seq<char> {
    if b {
        lit_true()
    } else {
        lit_false()
    }
}

/// The document form of one user entry.
pub open spec fn enc_user(u: UserConfigV) -> Seq<char> {
    seq!['{'] + key_config_path() + sep_colon() + enc_string(u.config_path) + sep_comma()
        + key_otp() + sep_colon() + enc_bool(u.otp) + sep_comma() + key_otp_uri() + sep_colon()
        + enc_string(u.otp_uri) + seq!['}']
}

/// The user entries written one after another, separated by `, `.
pub open spec fn enc_users_items(us: Seq<UserConfigV>) -> Seq<char>
    decreases us.len(),
{
    if us.len() == 0 {
        Seq::empty()
    } else if us.len() == 1 {
        enc_user(us[0])
    } else {
        enc_user(us[0]) + sep_comma() + enc_users_items(us.drop_first())
    }
}

/// The document form of the user array.
pub open spec fn enc_users(us: Seq<UserConfigV>) -> Seq<char> {
    if us.len() == 0 {
        seq!['[', ']']
    } else {
        seq!['['] + enc_users_items(us) + seq![']']
    }
}

/// Everything of the document before the user array.
pub open spec fn enc_config_prefix(c: ConfigV) -> Seq<char> {
    seq!['{'] + key_app_name() + sep_colon() + enc_string(c.app_name) + sep_comma() + key_version()
        + sep_colon() + enc_string(c.version) + sep_comma() + key_user() + sep_colon()
}

/// The document form of a whole configuration.
pub open spec fn enc_config(c: ConfigV) -> Seq<char> {
    enc_config_prefix(c) + enc_users(c.user) + seq!['}']
}

// ------------------------------------------------------------------
// The spec parser.
// ------------------------------------------------------------------

/// One user object of the document, read at position `i`.
pub open spec fn parse_user(s: Seq<char>, i: int) -> Option<(UserConfigV, int)> {
    match expect_char(s, i, '{') {
        None => None,
        Some(i1) => match expect_lit(s, i1, key_config_path()) {
            None => None,
            Some(i2) => match expect_char(s, i2, ':') {
                None => None,
                Some(i3) => match parse_string(s, i3) {
                    None => None,
                    Some((cp, i4)) => match expect_char(s, i4, ',') {
                        None => None,
                        Some(i5) => match expect_lit(s, i5, key_otp()) {
                            None => None,
                            Some(i6) => match expect_char(s, i6, ':') {
                                None => None,
                                Some(i7) => match parse_bool(s, i7) {
                                    None => None,
                                    Some((otp, i8)) => match expect_char(s, i8, ',') {
                                        None => None,
                                        Some(i9) => match expect_lit(s, i9, key_otp_uri()) {
                                            None => None,
                                            Some(i10) => match expect_char(s, i10, ':') {
                                                None => None,
                                                Some(i11) => match parse_string(s, i11) {
                                                    None => None,
                                                    Some((uri, i12)) => match expect_char(
                                                        s,
                                                        i12,
                                                        '}',
                                                    ) {
                                                        None => None,
                                                        Some(i13) => Some(
                                                            (
                                                                UserConfigV {
                                                                    config_path: cp,
                                                                    otp,
                                                                    otp_uri: uri,
                                                                },
                                                                i13,
                                                            ),
                                                        ),
                                                    },
                                                },
                                            },
                                        },
                                    },
                                },
                            },
                        },
                    },
                },
            },
        },
    }
}

pub proof fn lemma_parse_user_bounds(s: Seq<char>, i: int)
    requires
        0 <= i <= s.len(),
        parse_user(s, i) is Some,
    ensures
        i < parse_user(s, i).unwrap().1 <= s.len(),
{
    let i1 = expect_char(s, i, '{').unwrap();
    lemma_expect_char_bounds(s, i, '{');
    let i2 = expect_lit(s, i1, key_config_path()).unwrap();
    lemma_expect_lit_bounds(s, i1, key_config_path());
    let i3 = expect_char(s, i2, ':').unwrap();
    lemma_expect_char_bounds(s, i2, ':');
    let i4 = parse_string(s, i3).unwrap().1;
    lemma_parse_string_bounds(s, i3);
    let i5 = expect_char(s, i4, ',').unwrap();
    lemma_expect_char_bounds(s, i4, ',');
    let i6 = expect_lit(s, i5, key_otp()).unwrap();
    lemma_expect_lit_bounds(s, i5, key_otp());
    let i7 = expect_char(s, i6, ':').unwrap();
    lemma_expect_char_bounds(s, i6, ':');
    let i8 = parse_bool(s, i7).unwrap().1;
    lemma_parse_bool_bounds(s, i7);
    let i9 = expect_char(s, i8, ',').unwrap();
    lemma_expect_char_bounds(s, i8, ',');
    let i10 = expect_lit(s, i9, key_otp_uri()).unwrap();
    lemma_expect_lit_bounds(s, i9, key_otp_uri());
    let i11 = expect_char(s, i10, ':').unwrap();
    lemma_expect_char_bounds(s, i10, ':');
    let i12 = parse_string(s, i11).unwrap().1;
    lemma_parse_string_bounds(s, i11);
    lemma_expect_char_bounds(s, i12, '}');
}

/// One or more user objects separated by commas, ending at the closing
/// bracket of the array.
pub open spec fn parse_users_rest(s: Seq<char>, i: int) -> Option<(Seq<UserConfigV>, int)>
    decreases s.len() - i,
    when 0 <= i <= s.len()
    via parse_users_rest_dec
{
    match parse_user(s, i) {
        None => None,
        Some((u, j)) => {
            let k = skip_ws(s, j);
            if k < s.len() && s[k] == ',' {
                match parse_users_rest(s, k + 1) {
                    None => None,
                    Some((rest, m)) => Some((seq![u] + rest, m)),
                }
            } else if k < s.len() && s[k] == ']' {
                Some((seq![u], k + 1))
            } else {
                None
            }
        },
    }
}

#[via_fn]
proof fn parse_users_rest_dec(s: Seq<char>, i: int) {
    if 0 <= i <= s.len() {
        if parse_user(s, i) is Some {
            lemma_parse_user_bounds(s, i);
            lemma_skip_ws_bounds(s, parse_user(s, i).unwrap().1);
        }
    }
}

/// The whole document: the three fixed keys in order, then the end of the
/// text (trailing whitespace allowed).
pub open spec fn parse_config(s: Seq<char>) -> Option<ConfigV> {
    match expect_char(s, 0, '{') {
        None => None,
        Some(i1) => match expect_lit(s, i1, key_app_name()) {
            None => None,
            Some(i2) => match expect_char(s, i2, ':') {
                None => None,
                Some(i3) => match parse_string(s, i3) {
                    None => None,
                    Some((app, i4)) => match expect_char(s, i4, ',') {
                        None => None,
                        Some(i5) => match expect_lit(s, i5, key_version()) {
                            None => None,
                            Some(i6) => match expect_char(s, i6, ':') {
                                None => None,
                                Some(i7) => match parse_string(s, i7) {
                                    None => None,
                                    Some((ver, i8)) => match expect_char(s, i8, ',') {
                                        None => None,
                                        Some(i9) => match expect_lit(s, i9, key_user()) {
                                            None => None,
                                            Some(i10) => match expect_char(s, i10, ':') {
                                                None => None,
                                                Some(i11) => match expect_char(s, i11, '[') {
                                                    None => None,
                                                    Some(i12) => match parse_users(s, i12) {
                                                        None => None,
                                                        Some((users, i13)) => match expect_char(
                                                            s,
                                                            i13,
                                                            '}',
                                                        ) {
                                                            None => None,
                                                            Some(i14) => if skip_ws(s, i14)
                                                                == s.len() {
                                                                Some(
                                                                    ConfigV {
                                                                        app_name: app,
                                                                        version: ver,
                                                                        user: users,
                                                                    },
                                                                )
                                                            } else {
                                                                None
                                                            },
                                                        },
                                                    },
                                                },
                                            },
                                        },
                                    },
                                },
                            },
                        },
                    },
                },
            },
        },
    }
}

/// The inside of the user array, starting just after the opening bracket
/// and ending just after the closing one.
pub open spec fn parse_users(s: Seq<char>, i: int) -> Option<(Seq<UserConfigV>, int)> {
    let k = skip_ws(s, i);
    if k < s.len() && s[k] == ']' {
        Some((Seq::empty(), k + 1))
    } else {
        parse_users_rest(s, i)
    }
}

// ------------------------------------------------------------------
// Executable encoder.
// ------------------------------------------------------------------

/// Appending one character to a string appends its escape to the escaped
/// form.
pub proof fn lemma_esc_str_snoc(p: Seq<char>, c: char)
    ensures
        esc_str(p.push(c)) == esc_str(p) + esc_char(c),
    decreases p.len(),
{
    if p.len() == 0 {
        assert(p.push(c)[0] == c);
        assert(p.push(c).drop_first() =~= Seq::<char>::empty());
        assert(esc_str(p.push(c)) == esc_char(c) + esc_str(Seq::<char>::empty()));
        assert(esc_char(c) + Seq::<char>::empty() =~= esc_char(c));
        assert(p =~= Seq::<char>::empty());
        assert(esc_str(p) + esc_char(c) =~= esc_char(c));
    } else {
        assert(p.push(c).drop_first() =~= p.drop_first().push(c));
        lemma_esc_str_snoc(p.drop_first(), c);
        assert(esc_char(p[0]) + (esc_str(p.drop_first()) + esc_char(c)) =~= (esc_char(p[0])
            + esc_str(p.drop_first())) + esc_char(c));
        assert(esc_str(p.push(c)) =~= esc_str(p) + esc_char(c));
    }
}

/// Writes the escaped form of `s` at the end of `out`.
fn push_escaped(out: &mut String, s: &str)
    ensures
        final(out)@ == old(out)@ + esc_str(s@),
{
    let n = s.unicode_len();
    let mut i: usize = 0;
    proof {
        assert(s@.take(0) =~= Seq::<char>::empty());
        assert(old(out)@ + esc_str(s@.take(0)) =~= old(out)@);
    }
    while i < n
        invariant
            n == s@.len(),
            i <= n,
            out@ == old(out)@ + esc_str(s@.take(i as int)),
        decreases n - i,
    {
        let c = s.get_char(i);
        if c == '"' {
            push_char(out, '\\');
            push_char(out, '"');
        } else if c == '\\' {
            push_char(out, '\\');
            push_char(out, '\\');
        } else if c == '\n' {
            push_char(out, '\\');
            push_char(out, 'n');
        } else if c == '\r' {
            push_char(out, '\\');
            push_char(out, 'r');
        } else if c == '\t' {
            push_char(out, '\\');
            push_char(out, 't');
        } else {
            push_char(out, c);
        }
        proof {
            lemma_esc_str_snoc(s@.take(i as int), c);
            assert(s@.take(i as int).push(c) =~= s@.take(i as int + 1));
            assert(out@ =~= old(out)@ + esc_str(s@.take(i as int + 1)));
        }
        i = i + 1;
    }
    proof {
        assert(s@.take(n as int) =~= s@);
    }
}

/// Writes the quoted, escaped form of `s` at the end of `out`.
fn push_quoted(out: &mut String, s: &str)
    ensures
        final(out)@ == old(out)@ + enc_string(s@),
{
    push_char(out, '"');
    push_escaped(out, s);
    push_char(out, '"');
    proof {
        assert(out@ =~= old(out)@ + enc_string(s@));
    }
}

/// Writes the document form of one user entry at the end of `out`.
fn push_user(out: &mut String, u: &UserConfig)
    ensures
        final(out)@ == old(out)@ + enc_user(u@),
{
    proof {
        reveal_strlit("{\"config_path\"");
        reveal_strlit(": ");
        reveal_strlit(", \"otp\"");
        reveal_strlit(", \"otp_uri\"");
        reveal_strlit("true");
        reveal_strlit("false");
        reveal_strlit("}");
    }
    out.append("{\"config_path\"");
    out.append(": ");
    push_quoted(out, u.config_path.as_str());
    out.append(", \"otp\"");
    out.append(": ");
    if u.otp {
        out.append("true");
    } else {
        out.append("false");
    }
    out.append(", \"otp_uri\"");
    out.append(": ");
    push_quoted(out, u.otp_uri.as_str());
    out.append("}");
    proof {
        assert("{\"config_path\""@ =~= seq!['{'] + key_config_path());
        assert(": "@ =~= sep_colon());
        assert(", \"otp\""@ =~= sep_comma() + key_otp());
        assert(", \"otp_uri\""@ =~= sep_comma() + key_otp_uri());
        assert("true"@ =~= lit_true());
        assert("false"@ =~= lit_false());
        assert("}"@ =~= seq!['}']);
        assert(out@ =~= old(out)@ + enc_user(u@));
    }
}

/// Appending one entry to a non-empty list appends a separator and its
/// document form to the written items.
pub proof fn lemma_enc_users_items_snoc(us: Seq<UserConfigV>, u: UserConfigV)
    requires
        us.len() >= 1,
    ensures
        enc_users_items(us.push(u)) == enc_users_items(us) + sep_comma() + enc_user(u),
    decreases us.len(),
{
    if us.len() == 1 {
        assert(us.push(u)[0] == us[0]);
        assert(us.push(u).drop_first() =~= seq![u]);
        assert(enc_users_items(seq![u]) == enc_user(u));
        assert(enc_users_items(us.push(u)) =~= enc_users_items(us) + sep_comma() + enc_user(u));
    } else {
        assert(us.push(u)[0] == us[0]);
        assert(us.push(u).drop_first() =~= us.drop_first().push(u));
        lemma_enc_users_items_snoc(us.drop_first(), u);
        assert(enc_users_items(us.push(u)) =~= enc_users_items(us) + sep_comma() + enc_user(u));
    }
}

impl Config {
    /// Renders the configuration as its JSON document, one line.
    pub fn to_json_string(&self) -> (r: String)
        ensures
            r@ == enc_config(self@),
    {
        proof {
            reveal_strlit("{\"app_name\"");
            reveal_strlit(": ");
            reveal_strlit(", \"version\"");
            reveal_strlit(", \"user\"");
            reveal_strlit("[]");
            reveal_strlit("[");
            reveal_strlit("]");
            reveal_strlit("}");
        }
        let mut out = String::new();
        out.append("{\"app_name\"");
        out.append(": ");
        push_quoted(&mut out, self.app_name.as_str());
        out.append(", \"version\"");
        out.append(": ");
        push_quoted(&mut out, self.version.as_str());
        out.append(", \"user\"");
        out.append(": ");
        proof {
            assert("{\"app_name\""@ =~= seq!['{'] + key_app_name());
            assert(": "@ =~= sep_colon());
            assert(", \"version\""@ =~= sep_comma() + key_version());
            assert(", \"user\""@ =~= sep_comma() + key_user());
            assert(out@ =~= enc_config_prefix(self@));
        }
        let ghost users_v = self@.user;
        if self.user.len() == 0 {
            out.append("[]");
            proof {
                assert("[]"@ =~= seq!['[', ']']);
                assert(users_v.len() == 0);
            }
        } else {
            out.append("[");
            proof {
                assert("["@ =~= seq!['[']);
            }
            let ghost base = out@;
            let mut idx: usize = 0;
            while idx < self.user.len()
                invariant
                    users_v == self@.user,
                    users_v.len() == self.user.len(),
                    idx <= self.user.len(),
                    base == enc_config_prefix(self@) + seq!['['],
                    idx == 0 ==> out@ == base,
                    idx >= 1 ==> out@ == base + enc_users_items(users_v.take(idx as int)),
                decreases self.user.len() - idx,
            {
                if idx > 0 {
                    out.append(", ");
                    proof {
                        reveal_strlit(", ");
                        assert(", "@ =~= sep_comma());
                    }
                }
                push_user(&mut out, &self.user[idx]);
                proof {
                    assert(users_v[idx as int] == self.user[idx as int]@);
                    assert(users_v.take(idx as int + 1) =~= users_v.take(idx as int).push(
                        users_v[idx as int],
                    ));
                    if idx == 0 {
                        assert(users_v.take(1) =~= seq![users_v[0]]);
                        assert(enc_users_items(seq![users_v[0]]) == enc_user(users_v[0]));
                        assert(out@ =~= base + enc_users_items(users_v.take(1)));
                    } else {
                        lemma_enc_users_items_snoc(users_v.take(idx as int), users_v[idx as int]);
                        assert(out@ =~= base + enc_users_items(users_v.take(idx as int + 1)));
                    }
                }
                idx = idx + 1;
            }
            out.append("]");
            proof {
                assert("]"@ =~= seq![']']);
                assert(users_v.take(users_v.len() as int) =~= users_v);
                assert(out@ =~= enc_config_prefix(self@) + enc_users(users_v));
            }
        }
        out.append("}");
        proof {
            assert("}"@ =~= seq!['}']);
            assert(out@ =~= enc_config(self@));
        }
        out
    }
}

// ------------------------------------------------------------------
// Executable parser.
// ------------------------------------------------------------------

/// Executable counterpart of `parse_user`.
pub fn parse_user_exec(s: &str, n: usize, i: usize) -> (r: Option<(UserConfig, usize)>)
    requires
        n == s@.len(),
        i <= n,
    ensures
        match r {
            Some(p) => parse_user(s@, i as int) == Some((p.0@, p.1 as int)) && i < p.1 <= n,
            None => parse_user(s@, i as int) is None,
        },
{
    let i1 = match expect_char_exec(s, n, i, '{') {
        Some(k) => k,
        None => {
            return None;
        },
    };
    proof {
        reveal_strlit("\"config_path\"");
        assert("\"config_path\""@ =~= key_config_path());
    }
    let i2 = match expect_lit_exec(s, n, i1, "\"config_path\"", 13) {
        Some(k) => k,
        None => {
            return None;
        },
    };
    let i3 = match expect_char_exec(s, n, i2, ':') {
        Some(k) => k,
        None => {
            return None;
        },
    };
    let (cp, i4) = match parse_string_exec(s, n, i3) {
        Some(p) => p,
        None => {
            return None;
        },
    };
    let i5 = match expect_char_exec(s, n, i4, ',') {
        Some(k) => k,
        None => {
            return None;
        },
    };
    proof {
        reveal_strlit("\"otp\"");
        assert("\"otp\""@ =~= key_otp());
    }
    let i6 = match expect_lit_exec(s, n, i5, "\"otp\"", 5) {
        Some(k) => k,
        None => {
            return None;
        },
    };
    let i7 = match expect_char_exec(s, n, i6, ':') {
        Some(k) => k,
        None => {
            return None;
        },
    };
    let (otp, i8) = match parse_bool_exec(s, n, i7) {
        Some(p) => p,
        None => {
            return None;
        },
    };
    let i9 = match expect_char_exec(s, n, i8, ',') {
        Some(k) => k,
        None => {
            return None;
        },
    };
    proof {
        reveal_strlit("\"otp_uri\"");
        assert("\"otp_uri\""@ =~= key_otp_uri());
    }
    let i10 = match expect_lit_exec(s, n, i9, "\"otp_uri\"", 9) {
        Some(k) => k,
        None => {
            return None;
        },
    };
    let i11 = match expect_char_exec(s, n, i10, ':') {
        Some(k) => k,
        None => {
            return None;
        },
    };
    let (uri, i12) = match parse_string_exec(s, n, i11) {
        Some(p) => p,
        None => {
            return None;
        },
    };
    let i13 = match expect_char_exec(s, n, i12, '}') {
        Some(k) => k,
        None => {
            return None;
        },
    };
    Some((UserConfig { config_path: cp, otp, otp_uri: uri }, i13))
}

/// Relates a partially read user list to the whole one: what parsing yields
/// from `i` is `accv` followed by whatever parsing yields from `pos`.
pub open spec fn users_rest_step(s: Seq<char>, i: int, accv: Seq<UserConfigV>, pos: int) -> bool {
    parse_users_rest(s, i) == match parse_users_rest(s, pos) {
        Some((rest, m)) => Some((accv + rest, m)),
        None => None,
    }
}

/// Executable counterpart of `parse_users_rest`.
pub fn parse_users_rest_exec(s: &str, n: usize, i: usize) -> (r: Option<(Vec<UserConfig>, usize)>)
    requires
        n == s@.len(),
        i <= n,
    ensures
        match r {
            Some(p) => parse_users_rest(s@, i as int) == Some((users_view(p.0@), p.1 as int)) && i
                < p.1 <= n,
            None => parse_users_rest(s@, i as int) is None,
        },
{
    let mut acc: Vec<UserConfig> = Vec::new();
    let mut pos: usize = i;
    proof {
        if parse_users_rest(s@, i as int) is Some {
            let (rest, m) = parse_users_rest(s@, i as int).unwrap();
            assert(Seq::<UserConfigV>::empty() + rest =~= rest);
        }
        assert(users_view(acc@) =~= Seq::<UserConfigV>::empty());
    }
    loop
        invariant
            n == s@.len(),
            i <= pos <= n,
            users_rest_step(s@, i as int, users_view(acc@), pos as int),
        decreases n - pos,
    {
        match parse_user_exec(s, n, pos) {
            None => {
                return None;
            },
            Some((u, j)) => {
                let k = skip_ws_exec(s, n, j);
                if k < n && s.get_char(k) == ',' {
                    proof {
                        if parse_users_rest(s@, k as int + 1) is Some {
                            let (rest, m) = parse_users_rest(s@, k as int + 1).unwrap();
                            assert(users_view(acc@) + (seq![u@] + rest) =~= users_view(acc@).push(
                                u@,
                            ) + rest);
                            assert(users_view(acc@.push(u)) =~= users_view(acc@).push(u@));
                        } else {
                            assert(users_view(acc@.push(u)) =~= users_view(acc@).push(u@));
                        }
                    }
                    acc.push(u);
                    pos = k + 1;
                } else if k < n && s.get_char(k) == ']' {
                    proof {
                        assert(parse_users_rest(s@, pos as int) == Some(
                            (seq![u@], k as int + 1),
                        ));
                        assert(users_view(acc@.push(u)) =~= users_view(acc@).push(u@));
                        assert(users_view(acc@) + seq![u@] =~= users_view(acc@).push(u@));
                    }
                    acc.push(u);
                    return Some((acc, k + 1));
                } else {
                    return None;
                }
            },
        }
    }
}

impl Config {
    /// Reads a configuration back from its JSON document form. Returns
    /// `None` exactly when the text does not parse as such a document.
    pub fn from_json_str(s: &str) -> (r: Option<Config>)
        ensures
            match r {
                Some(c) => parse_config(s@) == Some(c@),
                None => parse_config(s@) is None,
            },
    {
        let n = s.unicode_len();
        let i1 = match expect_char_exec(s, n, 0, '{') {
            Some(k) => k,
            None => {
                return None;
            },
        };
        proof {
            reveal_strlit("\"app_name\"");
            assert("\"app_name\""@ =~= key_app_name());
        }
        let i2 = match expect_lit_exec(s, n, i1, "\"app_name\"", 10) {
            Some(k) => k,
            None => {
                return None;
            },
        };
        let i3 = match expect_char_exec(s, n, i2, ':') {
            Some(k) => k,
            None => {
                return None;
            },
        };
        let (app, i4) = match parse_string_exec(s, n, i3) {
            Some(p) => p,
            None => {
                return None;
            },
        };
        let i5 = match expect_char_exec(s, n, i4, ',') {
            Some(k) => k,
            None => {
                return None;
            },
        };
        proof {
            reveal_strlit("\"version\"");
            assert("\"version\""@ =~= key_version());
        }
        let i6 = match expect_lit_exec(s, n, i5, "\"version\"", 9) {
            Some(k) => k,
            None => {
                return None;
            },
        };
        let i7 = match expect_char_exec(s, n, i6, ':') {
            Some(k) => k,
            None => {
                return None;
            },
        };
        let (ver, i8) = match parse_string_exec(s, n, i7) {
            Some(p) => p,
            None => {
                return None;
            },
        };
        let i9 = match expect_char_exec(s, n, i8, ',') {
            Some(k) => k,
            None => {
                return None;
            },
        };
        proof {
            reveal_strlit("\"user\"");
            assert("\"user\""@ =~= key_user());
        }
        let i10 = match expect_lit_exec(s, n, i9, "\"user\"", 6) {
            Some(k) => k,
            None => {
                return None;
            },
        };
        let i11 = match expect_char_exec(s, n, i10, ':') {
            Some(k) => k,
            None => {
                return None;
            },
        };
        let i12 = match expect_char_exec(s, n, i11, '[') {
            Some(k) => k,
            None => {
                return None;
            },
        };
        let k = skip_ws_exec(s, n, i12);
        let mut users: Vec<UserConfig> = Vec::new();
        let i13: usize;
        if k < n && s.get_char(k) == ']' {
            proof {
                assert(users_view(users@) =~= Seq::<UserConfigV>::empty());
            }
            i13 = k + 1;
        } else {
            match parse_users_rest_exec(s, n, i12) {
                Some(p) => {
                    users = p.0;
                    i13 = p.1;
                },
                None => {
                    return None;
                },
            }
        }
        let i14 = match expect_char_exec(s, n, i13, '}') {
            Some(k2) => k2,
            None => {
                return None;
            },
        };
        let j = skip_ws_exec(s, n, i14);
        if j == n {
            Some(Config { app_name: app, version: ver, user: users })
        } else {
            None
        }
    }

    /// The configuration a fresh installation starts from: the application's
    /// name, the given version identifier, and no user entries.
    pub fn default_config(version: &str) -> (c: Config)
        ensures
            c@.app_name == "WGBridge"@,
            c@.version == version@,
            c@.user == Seq::<UserConfigV>::empty(),
    {
        let c = Config {
            app_name: "WGBridge".to_owned(),
            version: version.to_owned(),
            user: Vec::new(),
        };
        proof {
            assert(users_view(c.user@) =~= Seq::<UserConfigV>::empty());
        }
        c
    }

    /// The decision taken at startup, from what was found on disk.
    ///
    /// With no existing file, the default configuration is created together
    /// with the exact document text to persist. With an existing file, its
    /// text either parses, giving the loaded configuration, or the
    /// configuration is reported as invalid.
    pub fn init_config(existing: Option<&str>, version: &str) -> (r: InitOutcome)
        ensures
            existing is None ==> (r matches InitOutcome::Created(c, text) && c@.app_name
                == "WGBridge"@ && c@.version == version@ && c@.user
                == Seq::<UserConfigV>::empty() && text@ == enc_config(c@)),
            existing matches Some(s) ==> match parse_config(s@) {
                Some(v) => r matches InitOutcome::Loaded(c) && c@ == v,
                None => r is Invalid,
            },
    {
        match existing {
            None => {
                let c = Config::default_config(version);
                let text = c.to_json_string();
                InitOutcome::Created(c, text)
            },
            Some(s) => match Config::from_json_str(s) {
                Some(c) => InitOutcome::Loaded(c),
                None => InitOutcome::Invalid,
            },
        }
    }
}

// ------------------------------------------------------------------
// Round trip: parsing what the encoder wrote gives back the value.
// ------------------------------------------------------------------

/// Parsing one user object over its document form decodes the entry.
#[verifier::rlimit(60)]
pub proof fn lemma_parse_user_inv(s: Seq<char>, i: int, u: UserConfigV)
    requires
        0 <= i <= s.len(),
        skip_ws(s, i) + enc_user(u).len() <= s.len(),
        s.subrange(skip_ws(s, i), skip_ws(s, i) + enc_user(u).len() as int) == enc_user(u),
    ensures
        parse_user(s, i) == Some((u, skip_ws(s, i) + enc_user(u).len())),
{
    lemma_skip_ws_bounds(s, i);
    let j = skip_ws(s, i);
    let e = enc_user(u);
    let cp = enc_string(u.config_path);
    let ob = enc_bool(u.otp);
    let ur = enc_string(u.otp_uri);
    assert forall|t: int| 0 <= t < e.len() implies s[j + t] == #[trigger] e[t] by {
        assert(s.subrange(j, j + e.len() as int)[t] == s[j + t]);
    }
    let j1 = j + 1;
    let j2 = j1 + 13;
    let j3 = j2 + 2;
    let j4 = j3 + cp.len();
    let j5 = j4 + 2;
    let j6 = j5 + 5;
    let j7 = j6 + 2;
    let j8 = j7 + ob.len();
    let j9 = j8 + 2;
    let j10 = j9 + 9;
    let j11 = j10 + 2;
    let j12 = j11 + ur.len();
    let j13 = j12 + 1;
    assert(e.len() == j13 - j);
    // the opening brace
    assert(e[0] == '{');
    assert(s[j] == '{');
    assert(expect_char(s, i, '{') == Some(j1));
    // the key `config_path`
    assert(e[j1 - j] == '"');
    lemma_skip_ws_run(s, j1, j1);
    assert forall|t: int| 0 <= t < 13 implies s[j1 + t] == key_config_path()[t] by {
        assert(e[(j1 - j) + t] == key_config_path()[t]);
    }
    assert(s.subrange(j1, j2) =~= key_config_path());
    assert(expect_lit(s, j1, key_config_path()) == Some(j2));
    // the colon and the path value
    assert(e[j2 - j] == ':');
    lemma_skip_ws_run(s, j2, j2);
    assert(expect_char(s, j2, ':') == Some(j2 + 1));
    assert(e[j2 + 1 - j] == ' ');
    assert(cp[0] == '"');
    assert(e[j3 - j] == cp[0]);
    lemma_skip_ws_run(s, j2 + 1, j3);
    assert forall|t: int| 0 <= t < cp.len() implies s[j3 + t] == cp[t] by {
        assert(e[(j3 - j) + t] == cp[t]);
    }
    assert(s.subrange(j3, j4) =~= cp);
    lemma_parse_string_inv(s, j2 + 1, u.config_path);
    assert(parse_string(s, j2 + 1) == Some((u.config_path, j4)));
    // the comma and the key `otp`
    assert(e[j4 - j] == ',');
    lemma_skip_ws_run(s, j4, j4);
    assert(expect_char(s, j4, ',') == Some(j4 + 1));
    assert(e[j4 + 1 - j] == ' ');
    assert(e[j5 - j] == '"');
    lemma_skip_ws_run(s, j4 + 1, j5);
    assert forall|t: int| 0 <= t < 5 implies s[j5 + t] == key_otp()[t] by {
        assert(e[(j5 - j) + t] == key_otp()[t]);
    }
    assert(s.subrange(j5, j6) =~= key_otp());
    assert(expect_lit(s, j4 + 1, key_otp()) == Some(j6));
    // the colon and the boolean value
    assert(e[j6 - j] == ':');
    lemma_skip_ws_run(s, j6, j6);
    assert(expect_char(s, j6, ':') == Some(j6 + 1));
    assert(e[j6 + 1 - j] == ' ');
    assert(e[j7 - j] == ob[0]);
    assert forall|t: int| 0 <= t < ob.len() implies s[j7 + t] == ob[t] by {
        assert(e[(j7 - j) + t] == ob[t]);
    }
    if u.otp {
        assert(s[j7] == 't');
        lemma_skip_ws_run(s, j6 + 1, j7);
        assert(s.subrange(j7, j8) =~= lit_true());
        assert(expect_lit(s, j6 + 1, lit_true()) == Some(j8));
        assert(parse_bool(s, j6 + 1) == Some((true, j8)));
    } else {
        assert(s[j7] == 'f');
        lemma_skip_ws_run(s, j6 + 1, j7);
        assert(s.subrange(j7, j7 + 4)[0] == 'f');
        assert(lit_true()[0] == 't');
        assert(s.subrange(j7, j7 + 4) != lit_true());
        assert(expect_lit(s, j6 + 1, lit_true()) is None);
        assert(s.subrange(j7, j8) =~= lit_false());
        assert(expect_lit(s, j6 + 1, lit_false()) == Some(j8));
        assert(parse_bool(s, j6 + 1) == Some((false, j8)));
    }
    // the comma and the key `otp_uri`
    assert(e[j8 - j] == ',');
    lemma_skip_ws_run(s, j8, j8);
    assert(expect_char(s, j8, ',') == Some(j8 + 1));
    assert(e[j8 + 1 - j] == ' ');
    assert(e[j9 - j] == '"');
    lemma_skip_ws_run(s, j8 + 1, j9);
    assert forall|t: int| 0 <= t < 9 implies s[j9 + t] == key_otp_uri()[t] by {
        assert(e[(j9 - j) + t] == key_otp_uri()[t]);
    }
    assert(s.subrange(j9, j10) =~= key_otp_uri());
    assert(expect_lit(s, j8 + 1, key_otp_uri()) == Some(j10));
    // the colon and the URI value
    assert(e[j10 - j] == ':');
    lemma_skip_ws_run(s, j10, j10);
    assert(expect_char(s, j10, ':') == Some(j10 + 1));
    assert(e[j10 + 1 - j] == ' ');
    assert(ur[0] == '"');
    assert(e[j11 - j] == ur[0]);
    lemma_skip_ws_run(s, j10 + 1, j11);
    assert forall|t: int| 0 <= t < ur.len() implies s[j11 + t] == ur[t] by {
        assert(e[(j11 - j) + t] == ur[t]);
    }
    assert(s.subrange(j11, j12) =~= ur);
    lemma_parse_string_inv(s, j10 + 1, u.otp_uri);
    assert(parse_string(s, j10 + 1) == Some((u.otp_uri, j12)));
    // the closing brace
    assert(e[j12 - j] == '}');
    lemma_skip_ws_run(s, j12, j12);
    assert(expect_char(s, j12, '}') == Some(j13));
    assert(UserConfigV { config_path: u.config_path, otp: u.otp, otp_uri: u.otp_uri } == u);
}

/// Parsing the written items of a non-empty user list, up to the closing
/// bracket of the array, decodes every entry.
#[verifier::rlimit(60)]
pub proof fn lemma_users_rest_inv(s: Seq<char>, i: int, us: Seq<UserConfigV>)
    requires
        us.len() >= 1,
        0 <= i <= s.len(),
        skip_ws(s, i) + enc_users_items(us).len() + 1 <= s.len(),
        s.subrange(skip_ws(s, i), skip_ws(s, i) + enc_users_items(us).len() + 1)
            == enc_users_items(us) + seq![']'],
    ensures
        parse_users_rest(s, i) == Some((us, skip_ws(s, i) + enc_users_items(us).len() + 1)),
    decreases us.len(),
{
    lemma_skip_ws_bounds(s, i);
    let j = skip_ws(s, i);
    let items = enc_users_items(us);
    let u = us[0];
    let eu = enc_user(u);
    assert forall|t: int| 0 <= t < items.len() + 1 implies s[j + t] == #[trigger] (items
        + seq![']'])[t] by {
        assert(s.subrange(j, j + items.len() + 1)[t] == s[j + t]);
    }
    if us.len() == 1 {
        assert(items == eu);
        assert forall|t: int| 0 <= t < eu.len() implies s.subrange(j, j + eu.len() as int)[t]
            == eu[t] by {
            assert(s[j + t] == (items + seq![']'])[t]);
        }
        assert(s.subrange(j, j + eu.len() as int) =~= eu);
        lemma_parse_user_inv(s, i, u);
        let end0 = j + eu.len();
        assert(s[end0] == (items + seq![']'])[eu.len() as int]);
        assert(s[end0] == ']');
        lemma_skip_ws_run(s, end0, end0);
        assert(parse_users_rest(s, i) == Some((seq![u], end0 + 1)));
        assert(seq![u] =~= us);
    } else {
        let rest = us.drop_first();
        let ritems = enc_users_items(rest);
        assert(items == eu + sep_comma() + ritems);
        assert forall|t: int| 0 <= t < eu.len() implies s.subrange(j, j + eu.len() as int)[t]
            == eu[t] by {
            assert(s[j + t] == (items + seq![']'])[t]);
            assert((items + seq![']'])[t] == eu[t]);
        }
        assert(s.subrange(j, j + eu.len() as int) =~= eu);
        lemma_parse_user_inv(s, i, u);
        let end0 = j + eu.len();
        assert(s[end0] == (items + seq![']'])[eu.len() as int]);
        assert(s[end0] == ',');
        lemma_skip_ws_run(s, end0, end0);
        // the recursive call starts after the separator
        assert(s[end0 + 1] == (items + seq![']'])[eu.len() as int + 1]);
        assert(s[end0 + 1] == ' ');
        assert(enc_user(rest[0])[0] == '{');
        assert(ritems[0] == '{');
        assert(s[end0 + 2] == (items + seq![']'])[eu.len() as int + 2]);
        assert(s[end0 + 2] == '{');
        lemma_skip_ws_run(s, end0 + 1, end0 + 2);
        assert(skip_ws(s, end0 + 1) == end0 + 2);
        assert forall|t: int| 0 <= t < ritems.len() + 1 implies s.subrange(
            end0 + 2,
            end0 + 2 + ritems.len() + 1,
        )[t] == (ritems + seq![']'])[t] by {
            assert(s[end0 + 2 + t] == (items + seq![']'])[eu.len() as int + 2 + t]);
            assert((items + seq![']'])[eu.len() as int + 2 + t] == (ritems + seq![']'])[t]);
        }
        assert(s.subrange(end0 + 2, end0 + 2 + ritems.len() + 1) =~= ritems + seq![']']);
        lemma_users_rest_inv(s, end0 + 1, rest);
        assert(parse_users_rest(s, end0 + 1) == Some((rest, end0 + 2 + ritems.len() + 1)));
        assert(parse_users_rest(s, i) == Some((seq![u] + rest, end0 + 2 + ritems.len() + 1)));
        assert(seq![u] + rest =~= us);
        assert(end0 + 2 + ritems.len() + 1 == j + items.len() + 1);
    }
}

/// The token-by-token reads of the document head, down to the opening
/// bracket of the user array, on the rendered form of `c`.
pub open spec fn config_head_ok(s: Seq<char>, c: ConfigV) -> bool {
    let ca = enc_string(c.app_name).len() as int;
    let cv = enc_string(c.version).len() as int;
    &&& expect_char(s, 0, '{') == Some(1int)
    &&& expect_lit(s, 1, key_app_name()) == Some(11int)
    &&& expect_char(s, 11, ':') == Some(12int)
    &&& parse_string(s, 12) == Some((c.app_name, 13 + ca))
    &&& expect_char(s, 13 + ca, ',') == Some(14 + ca)
    &&& expect_lit(s, 14 + ca, key_version()) == Some(24 + ca)
    &&& expect_char(s, 24 + ca, ':') == Some(25 + ca)
    &&& parse_string(s, 25 + ca) == Some((c.version, 26 + ca + cv))
    &&& expect_char(s, 26 + ca + cv, ',') == Some(27 + ca + cv)
    &&& expect_lit(s, 27 + ca + cv, key_user()) == Some(34 + ca + cv)
    &&& expect_char(s, 34 + ca + cv, ':') == Some(35 + ca + cv)
    &&& expect_char(s, 35 + ca + cv, '[') == Some(37 + ca + cv)
}

/// The reads of the user array and of the document tail on the rendered
/// form of `c`.
pub open spec fn config_tail_ok(s: Seq<char>, c: ConfigV) -> bool {
    let ca = enc_string(c.app_name).len() as int;
    let cv = enc_string(c.version).len() as int;
    let cu = enc_users(c.user).len() as int;
    &&& parse_users(s, 37 + ca + cv) == Some((c.user, 36 + ca + cv + cu))
    &&& expect_char(s, 36 + ca + cv + cu, '}') == Some(37 + ca + cv + cu)
    &&& skip_ws(s, 37 + ca + cv + cu) == s.len()
}

#[verifier::rlimit(100)]
proof fn lemma_config_head(c: ConfigV)
    ensures
        config_head_ok(enc_config(c), c),
{
    let s = enc_config(c);
    let ca = enc_string(c.app_name);
    let cv = enc_string(c.version);
    let cu = enc_users(c.user);
    let m1 = 1int;
    let m2 = m1 + 10;
    let m3 = m2 + 2;
    let m4 = m3 + ca.len();
    let m5 = m4 + 2;
    let m6 = m5 + 9;
    let m7 = m6 + 2;
    let m8 = m7 + cv.len();
    let m9 = m8 + 2;
    let m10 = m9 + 6;
    let m11 = m10 + 2;
    let m12 = m11 + cu.len();
    let m13 = m12 + 1;
    assert(s.len() == m13);
    // the opening brace
    assert(s[0] == '{');
    lemma_skip_ws_run(s, 0, 0);
    assert(expect_char(s, 0, '{') == Some(m1));
    // the key `app_name`
    assert(s[m1] == '"');
    lemma_skip_ws_run(s, m1, m1);
    assert forall|t: int| 0 <= t < 10 implies s.subrange(m1, m2)[t] == key_app_name()[t] by {
        assert(s[m1 + t] == key_app_name()[t]);
    }
    assert(s.subrange(m1, m2) =~= key_app_name());
    assert(expect_lit(s, m1, key_app_name()) == Some(m2));
    // the colon and the name value
    assert(s[m2] == ':');
    lemma_skip_ws_run(s, m2, m2);
    assert(expect_char(s, m2, ':') == Some(m2 + 1));
    assert(s[m2 + 1] == ' ');
    assert(ca[0] == '"');
    assert(s[m3] == ca[0]);
    lemma_skip_ws_run(s, m2 + 1, m3);
    assert forall|t: int| 0 <= t < ca.len() implies s.subrange(m3, m4)[t] == ca[t] by {
        assert(s[m3 + t] == ca[t]);
    }
    assert(s.subrange(m3, m4) =~= ca);
    lemma_parse_string_inv(s, m2 + 1, c.app_name);
    assert(parse_string(s, m2 + 1) == Some((c.app_name, m4)));
    // the comma and the key `version`
    assert(s[m4] == ',');
    lemma_skip_ws_run(s, m4, m4);
    assert(expect_char(s, m4, ',') == Some(m4 + 1));
    assert(s[m4 + 1] == ' ');
    assert(s[m5] == '"');
    lemma_skip_ws_run(s, m4 + 1, m5);
    assert forall|t: int| 0 <= t < 9 implies s.subrange(m5, m6)[t] == key_version()[t] by {
        assert(s[m5 + t] == key_version()[t]);
    }
    assert(s.subrange(m5, m6) =~= key_version());
    assert(expect_lit(s, m4 + 1, key_version()) == Some(m6));
    // the colon and the version value
    assert(s[m6] == ':');
    lemma_skip_ws_run(s, m6, m6);
    assert(expect_char(s, m6, ':') == Some(m6 + 1));
    assert(s[m6 + 1] == ' ');
    assert(cv[0] == '"');
    assert(s[m7] == cv[0]);
    lemma_skip_ws_run(s, m6 + 1, m7);
    assert forall|t: int| 0 <= t < cv.len() implies s.subrange(m7, m8)[t] == cv[t] by {
        assert(s[m7 + t] == cv[t]);
    }
    assert(s.subrange(m7, m8) =~= cv);
    lemma_parse_string_inv(s, m6 + 1, c.version);
    assert(parse_string(s, m6 + 1) == Some((c.version, m8)));
    // the comma and the key `user`
    assert(s[m8] == ',');
    lemma_skip_ws_run(s, m8, m8);
    assert(expect_char(s, m8, ',') == Some(m8 + 1));
    assert(s[m8 + 1] == ' ');
    assert(s[m9] == '"');
    lemma_skip_ws_run(s, m8 + 1, m9);
    assert forall|t: int| 0 <= t < 6 implies s.subrange(m9, m10)[t] == key_user()[t] by {
        assert(s[m9 + t] == key_user()[t]);
    }
    assert(s.subrange(m9, m10) =~= key_user());
    assert(expect_lit(s, m8 + 1, key_user()) == Some(m10));
    // the colon and the user array
    assert(s[m10] == ':');
    lemma_skip_ws_run(s, m10, m10);
    assert(expect_char(s, m10, ':') == Some(m10 + 1));
    assert(s[m10 + 1] == ' ');
    assert(cu[0] == '[');
    assert(s[m11] == cu[0]);
    lemma_skip_ws_run(s, m10 + 1, m11);
    assert(expect_char(s, m10 + 1, '[') == Some(m11 + 1));
}

#[verifier::rlimit(100)]
proof fn lemma_config_tail(c: ConfigV)
    ensures
        config_tail_ok(enc_config(c), c),
{
    let s = enc_config(c);
    let ca = enc_string(c.app_name);
    let cv = enc_string(c.version);
    let cu = enc_users(c.user);
    let m11 = 36 + ca.len() as int + cv.len() as int;
    let m12 = m11 + cu.len();
    let m13 = m12 + 1;
    assert(s.len() == m13);
    assert(s[m11] == cu[0]);
    if c.user.len() == 0 {
        assert(s[m11 + 1] == cu[1]);
        assert(s[m11 + 1] == ']');
        lemma_skip_ws_run(s, m11 + 1, m11 + 1);
        assert(parse_users(s, m11 + 1) == Some((Seq::<UserConfigV>::empty(), m11 + 2)));
        assert(Seq::<UserConfigV>::empty() =~= c.user);
        assert(m11 + 2 == m12);
    } else {
        let items = enc_users_items(c.user);
        assert(cu == seq!['['] + items + seq![']']);
        assert(enc_user(c.user[0])[0] == '{');
        assert(items[0] == '{');
        assert(s[m11 + 1] == cu[1]);
        assert(s[m11 + 1] == '{');
        lemma_skip_ws_run(s, m11 + 1, m11 + 1);
        assert forall|t: int| 0 <= t < items.len() + 1 implies s.subrange(
            m11 + 1,
            m11 + 1 + items.len() + 1,
        )[t] == (items + seq![']'])[t] by {
            assert(s[m11 + 1 + t] == cu[1 + t]);
            assert(cu[1 + t] == (items + seq![']'])[t]);
        }
        assert(s.subrange(m11 + 1, m11 + 1 + items.len() + 1) =~= items + seq![']']);
        lemma_users_rest_inv(s, m11 + 1, c.user);
        assert(parse_users_rest(s, m11 + 1) == Some((c.user, m11 + 1 + items.len() + 1)));
        assert(parse_users(s, m11 + 1) == Some((c.user, m12)));
    }
    // the closing brace and the end of the text
    assert(s[m12] == '}');
    lemma_skip_ws_run(s, m12, m12);
    assert(expect_char(s, m12, '}') == Some(m13));
    assert(skip_ws(s, m13) == m13);
}

/// Parsing the document form of any configuration gives back that
/// configuration, field for field: the persisted form loses nothing.
pub proof fn lemma_config_round_trip(c: ConfigV)
    ensures
        parse_config(enc_config(c)) == Some(c),
{
    lemma_config_head(c);
    lemma_config_tail(c);
    assert(ConfigV { app_name: c.app_name, version: c.version, user: c.user } == c);
}

/// What initialization found and decided.
pub enum InitOutcome {
    /// No configuration existed: the default one, and the document text to
    /// persist for it.
    Created(Config, String),
    /// An existing document parsed: the configuration it holds.
    Loaded(Config),
    /// An existing document did not parse.
    Invalid,
}

} // verus!
