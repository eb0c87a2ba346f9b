//! The config store's logic: the JSON document the settings live in, the
//! normalization the settings form applies, and the fallback that
//! regenerates a default document when the stored one is missing or
//! corrupt. Reading and writing the file itself is the caller's business;
//! everything here is from text to values and back.

use vstd::prelude::*;
use crate::json::{
    hex_char, lemma_plain, lemma_skip_skip, lemma_skip_value_bounds, lemma_string_bounds,
    lemma_string_of_quoted, lemma_ws_len_bounds, p_skip_value, p_string, p_ws, plain, sp_quote,
    sp_skip_value, sp_string, spec_escape, spec_ws_len, str_eq,
};
use crate::text::{chars_to_string, opt_str_view, push_char, str_to_chars};
use crate::{Config, ConfigV, spec_default_location};

verus! {

/// Reads the value of one config member, named `name`, and folds it into
/// what has been gathered. A member with an unknown name is passed over;
/// a repeated member or a value of the wrong shape reads as nothing.
pub open spec fn sp_config_member(
    s: Seq<char>,
    ml: Option<Seq<char>>,
    tok: Option<Seq<char>>,
    name: Seq<char>,
) -> Option<(Option<Seq<char>>, Option<Seq<char>>, int)> {
    if name == "moodle_location"@ {
        if ml is Some {
            None
        } else {
            match sp_string(s) {
                Some((val, n)) => Some((Some(val), tok, n)),
                None => None,
            }
        }
    } else if name == "token"@ {
        if tok is Some {
            None
        } else {
            match sp_string(s) {
                Some((val, n)) => Some((ml, Some(val), n)),
                None => None,
            }
        }
    } else {
        match sp_skip_value(s) {
            Some(n) => Some((ml, tok, n)),
            None => None,
        }
    }
}

/// A config member's value consumes at least one character and never more
/// than the input.
pub proof fn lemma_config_member_bounds(
    s: Seq<char>,
    ml: Option<Seq<char>>,
    tok: Option<Seq<char>>,
    name: Seq<char>,
)
    ensures
        sp_config_member(s, ml, tok, name) matches Some((m2, t2, n)) ==> 1 <= n <= s.len(),
{
    lemma_string_bounds(s);
    lemma_skip_value_bounds(s);
}

/// Reads the members of a config object, after its opening brace: the two
/// field names in either order, each exactly once, both required, their
/// values strings, any other member passed over, blank space welcome
/// between tokens. Yields the config and the characters consumed up to
/// and including the closing brace.
pub open spec fn sp_config_fields(
    s: Seq<char>,
    ml: Option<Seq<char>>,
    tok: Option<Seq<char>>,
) -> Option<(ConfigV, int)>
    decreases s.len(),
    via sp_config_fields_dec
{
    let w0 = spec_ws_len(s);
    let s0 = s.skip(w0);
    match sp_string(s0) {
        None => None,
        Some((name, n1)) => {
            let s1 = s0.skip(n1);
            let w1 = spec_ws_len(s1);
            let s1b = s1.skip(w1);
            if s1b.len() == 0 || s1b[0] != ':' {
                None
            } else {
                let s2 = s1b.skip(1);
                let w2 = spec_ws_len(s2);
                let s2b = s2.skip(w2);
                match sp_config_member(s2b, ml, tok, name) {
                    None => None,
                    Some((ml2, tok2, n2)) => {
                        let s3 = s2b.skip(n2);
                        let w3 = spec_ws_len(s3);
                        let s3b = s3.skip(w3);
                        if s3b.len() == 0 {
                            None
                        } else if s3b[0] == ',' {
                            match sp_config_fields(s3b.skip(1), ml2, tok2) {
                                Some((c, n3)) => Some(
                                    (c, w0 + n1 + w1 + 1 + w2 + n2 + w3 + 1 + n3),
                                ),
                                None => None,
                            }
                        } else if s3b[0] == '}' {
                            match (ml2, tok2) {
                                (Some(m), Some(t)) => Some(
                                    (
                                        ConfigV { moodle_location: m, token: t },
                                        w0 + n1 + w1 + 1 + w2 + n2 + w3 + 1,
                                    ),
                                ),
                                _ => None,
                            }
                        } else {
                            None
                        }
                    },
                }
            }
        },
    }
}

#[via_fn]
proof fn sp_config_fields_dec(s: Seq<char>, ml: Option<Seq<char>>, tok: Option<Seq<char>>) {
    lemma_ws_len_bounds(s);
    let s0 = s.skip(spec_ws_len(s));
    lemma_string_bounds(s0);
    match sp_string(s0) {
        None => {},
        Some((name, n1)) => {
            let s1 = s0.skip(n1);
            lemma_ws_len_bounds(s1);
            let s1b = s1.skip(spec_ws_len(s1));
            if s1b.len() > 0 && s1b[0] == ':' {
                let s2 = s1b.skip(1);
                lemma_ws_len_bounds(s2);
                let s2b = s2.skip(spec_ws_len(s2));
                lemma_config_member_bounds(s2b, ml, tok, name);
                match sp_config_member(s2b, ml, tok, name) {
                    None => {},
                    Some((ml2, tok2, n2)) => {
                        lemma_ws_len_bounds(s2b.skip(n2));
                    },
                }
            }
        },
    }
}

/// A config object's members consume at least the closing brace and never
/// more than the input.
#[verifier::rlimit(100)]
pub proof fn lemma_config_fields_bounds(
    s: Seq<char>,
    ml: Option<Seq<char>>,
    tok: Option<Seq<char>>,
)
    ensures
        sp_config_fields(s, ml, tok) matches Some((c, n)) ==> 1 <= n <= s.len(),
    decreases s.len(),
{
    lemma_ws_len_bounds(s);
    let s0 = s.skip(spec_ws_len(s));
    lemma_string_bounds(s0);
    match sp_string(s0) {
        None => {},
        Some((name, n1)) => {
            let s1 = s0.skip(n1);
            lemma_ws_len_bounds(s1);
            let s1b = s1.skip(spec_ws_len(s1));
            if s1b.len() > 0 && s1b[0] == ':' {
                let s2 = s1b.skip(1);
                lemma_ws_len_bounds(s2);
                let s2b = s2.skip(spec_ws_len(s2));
                lemma_config_member_bounds(s2b, ml, tok, name);
                match sp_config_member(s2b, ml, tok, name) {
                    None => {},
                    Some((ml2, tok2, n2)) => {
                        let s3 = s2b.skip(n2);
                        lemma_ws_len_bounds(s3);
                        let s3b = s3.skip(spec_ws_len(s3));
                        assert(s0.len() == s.len() - spec_ws_len(s));
                        assert(s1.len() == s0.len() - n1);
                        assert(s1b.len() == s1.len() - spec_ws_len(s1));
                        assert(s2.len() == s1b.len() - 1);
                        assert(s2b.len() == s2.len() - spec_ws_len(s2));
                        assert(s3.len() == s2b.len() - n2);
                        assert(s3b.len() == s3.len() - spec_ws_len(s3));
                        if s3b.len() > 0 && s3b[0] == ',' {
                            lemma_config_fields_bounds(s3b.skip(1), ml2, tok2);
                        }
                    },
                }
            }
        },
    }
}

/// Reads a whole config document: an object of the two fields, with
/// nothing but blank space around it.
pub open spec fn sp_config(s: Seq<char>) -> Option<ConfigV> {
    let w = spec_ws_len(s);
    let s0 = s.skip(w);
    if s0.len() > 0 && s0[0] == '{' {
        match sp_config_fields(s0.skip(1), None, None) {
            Some((c, n)) => {
                let rest = s0.skip(1 + n);
                if spec_ws_len(rest) == rest.len() {
                    Some(c)
                } else {
                    None
                }
            },
            None => None,
        }
    } else {
        None
    }
}

fn p_config_member(
    v: &[char],
    i: usize,
    ml: Option<String>,
    tok: Option<String>,
    name: &String,
) -> (r: Option<(Option<String>, Option<String>, usize)>)
    requires
        i <= v@.len(),
    ensures
        (match sp_config_member(v@.skip(i as int), opt_str_view(ml), opt_str_view(tok), name@) {
            Some((m2, t2, n)) => r matches Some((mx, tx, j)) && opt_str_view(mx) == m2
                && opt_str_view(tx) == t2 && j == i + n,
            None => r is None,
        }),
{
    if str_eq(name, "moodle_location") {
        if ml.is_some() {
            None
        } else {
            match p_string(v, i) {
                Some((val, j)) => Some((Some(val), tok, j)),
                None => None,
            }
        }
    } else if str_eq(name, "token") {
        if tok.is_some() {
            None
        } else {
            match p_string(v, i) {
                Some((val, j)) => Some((ml, Some(val), j)),
                None => None,
            }
        }
    } else {
        match p_skip_value(v, i) {
            Some(j) => Some((ml, tok, j)),
            None => None,
        }
    }
}

#[verifier::rlimit(100)]
fn p_config_fields(v: &[char], i: usize, ml: Option<String>, tok: Option<String>) -> (r: Option<
    (Config, usize),
>)
    requires
        i <= v@.len(),
    ensures
        (match sp_config_fields(v@.skip(i as int), opt_str_view(ml), opt_str_view(tok)) {
            Some((c, n)) => r matches Some((cfg, j)) && cfg@ == c && j == i + n,
            None => r is None,
        }),
    decreases v@.len() - i,
{
    let ghost s = v@.skip(i as int);
    let j0 = p_ws(v, i);
    proof {
        lemma_skip_skip(v@, i as int, j0 - i);
        assert(s.skip(j0 - i) == v@.skip(j0 as int));
    }
    match p_string(v, j0) {
        None => None,
        Some((name, j1)) => {
            proof {
                lemma_string_bounds(v@.skip(j0 as int));
                lemma_skip_skip(v@, j0 as int, j1 - j0);
                assert(v@.skip(j0 as int).skip(j1 - j0) == v@.skip(j1 as int));
            }
            let j1b = p_ws(v, j1);
            proof {
                lemma_skip_skip(v@, j1 as int, j1b - j1);
                assert(v@.skip(j1 as int).skip(j1b - j1) == v@.skip(j1b as int));
            }
            if j1b == v.len() || v[j1b] != ':' {
                proof {
                    if j1b < v.len() {
                        assert(v@.skip(j1b as int)[0] == v@[j1b as int]);
                    }
                }
                None
            } else {
                assert(v@.skip(j1b as int)[0] == v@[j1b as int]);
                proof {
                    lemma_skip_skip(v@, j1b as int, 1);
                    assert(v@.skip(j1b as int).skip(1) == v@.skip(j1b as int + 1));
                }
                let j2w = p_ws(v, j1b + 1);
                proof {
                    lemma_skip_skip(v@, j1b as int + 1, j2w - (j1b + 1));
                    assert(v@.skip(j1b as int + 1).skip(j2w - (j1b + 1)) == v@.skip(j2w as int));
                }
                match p_config_member(v, j2w, ml, tok, &name) {
                    None => None,
                    Some((ml2, tok2, j2)) => {
                        proof {
                            lemma_config_member_bounds(
                                v@.skip(j2w as int),
                                opt_str_view(ml),
                                opt_str_view(tok),
                                name@,
                            );
                            lemma_skip_skip(v@, j2w as int, j2 - j2w);
                            assert(v@.skip(j2w as int).skip(j2 - j2w) == v@.skip(j2 as int));
                        }
                        let j3 = p_ws(v, j2);
                        proof {
                            lemma_skip_skip(v@, j2 as int, j3 - j2);
                            assert(v@.skip(j2 as int).skip(j3 - j2) == v@.skip(j3 as int));
                        }
                        if j3 == v.len() {
                            return None;
                        }
                        let c = v[j3];
                        assert(v@.skip(j3 as int)[0] == v@[j3 as int]);
                        if c == ',' {
                            proof {
                                lemma_skip_skip(v@, j3 as int, 1);
                                assert(v@.skip(j3 as int).skip(1) == v@.skip(j3 as int + 1));
                            }
                            p_config_fields(v, j3 + 1, ml2, tok2)
                        } else if c == '}' {
                            match (ml2, tok2) {
                                (Some(m), Some(t)) => Some(
                                    (Config { moodle_location: m, token: t }, j3 + 1),
                                ),
                                _ => None,
                            }
                        } else {
                            None
                        }
                    },
                }
            }
        },
    }
}

/// Reads a config document. Yields the settings exactly when the text is
/// a well-formed config object, and nothing otherwise.
pub fn parse_config(s: &str) -> (r: Option<Config>)
    ensures
        (match sp_config(s@) {
            Some(c) => r matches Some(cfg) && cfg@ == c,
            None => r is None,
        }),
{
    let v = str_to_chars(s);
    proof {
        assert(v@.skip(0) =~= v@);
    }
    let j0 = p_ws(v.as_slice(), 0);
    if j0 == v.len() {
        return None;
    }
    let first = v[j0];
    proof {
        assert(v@.skip(j0 as int)[0] == v@[j0 as int]);
    }
    if first != '{' {
        return None;
    }
    proof {
        lemma_skip_skip(v@, j0 as int, 1);
        assert(v@.skip(j0 as int).skip(1) == v@.skip(j0 as int + 1));
    }
    match p_config_fields(v.as_slice(), j0 + 1, None, None) {
        None => None,
        Some((cfg, j)) => {
            proof {
                lemma_config_fields_bounds(v@.skip(j0 as int + 1), None, None);
                lemma_skip_skip(v@, j0 as int, j - j0);
                assert(v@.skip(j0 as int).skip(j - j0) == v@.skip(j as int));
            }
            let jr = p_ws(v.as_slice(), j);
            if jr == v.len() {
                Some(cfg)
            } else {
                None
            }
        },
    }
}

/// The config document for these settings, in the compact form the store
/// writes.
pub open spec fn sp_config_json(c: ConfigV) -> Seq<char> {
    seq!['{'] + sp_quote("moodle_location"@) + seq![':'] + sp_quote(c.moodle_location) + seq![
        ','
    ] + sp_quote("token"@) + seq![':'] + sp_quote(c.token) + seq!['}']
}

/// The string literal body for `s`: every character escaped as JSON asks.
fn escaped(s: &str) -> (r: String)
    ensures
        r@ == spec_escape(s@),
{
    let v = str_to_chars(s);
    let mut out = String::new();
    let mut k: usize = 0;
    proof {
        assert(s@.take(0) =~= Seq::<char>::empty());
        assert(out@ =~= spec_escape(s@.take(0)));
    }
    while k < v.len()
        invariant
            0 <= k <= v@.len(),
            v@ == s@,
            out@ == spec_escape(s@.take(k as int)),
        decreases v@.len() - k,
    {
        let c = v[k];
        if c == '"' {
            push_char(&mut out, '\\');
            push_char(&mut out, '"');
        } else if c == '\\' {
            push_char(&mut out, '\\');
            push_char(&mut out, '\\');
        } else if c == '\u{0008}' {
            push_char(&mut out, '\\');
            push_char(&mut out, 'b');
        } else if c == '\t' {
            push_char(&mut out, '\\');
            push_char(&mut out, 't');
        } else if c == '\n' {
            push_char(&mut out, '\\');
            push_char(&mut out, 'n');
        } else if c == '\u{000C}' {
            push_char(&mut out, '\\');
            push_char(&mut out, 'f');
        } else if c == '\r' {
            push_char(&mut out, '\\');
            push_char(&mut out, 'r');
        } else if (c as u32) < 32 {
            let u = c as u32;
            push_char(&mut out, '\\');
            push_char(&mut out, 'u');
            push_char(&mut out, '0');
            push_char(&mut out, '0');
            push_char(&mut out, hex_char(u / 16));
            push_char(&mut out, hex_char(u % 16));
        } else {
            push_char(&mut out, c);
        }
        k = k + 1;
        proof {
            let ghost pre = s@.take(k as int - 1);
            let ghost one = seq![s@[k as int - 1]];
            assert(s@.take(k as int) =~= pre + one);
            crate::json::lemma_escape_app(pre, one);
            assert(one.skip(1) =~= Seq::<char>::empty());
            assert(spec_escape(Seq::<char>::empty()) =~= Seq::<char>::empty());
            assert(spec_escape(one) =~= crate::json::spec_escape_char(s@[k as int - 1])
                + spec_escape(Seq::<char>::empty()));
            assert(out@ =~= spec_escape(s@.take(k as int)));
        }
    }
    proof {
        assert(s@.take(v@.len() as int) =~= s@);
    }
    out
}

/// Writes the settings as a config document, the exact text that
/// [`parse_config`] reads back.
pub fn config_to_json(c: &Config) -> (r: String)
    ensures
        r@ == sp_config_json(c@),
{
    let mut out: String = "{\"moodle_location\":\"".to_owned();
    let ml = escaped(c.moodle_location.as_str());
    out.append(ml.as_str());
    out.append("\",\"token\":\"");
    let tk = escaped(c.token.as_str());
    out.append(tk.as_str());
    out.append("\"}");
    proof {
        lemma_lit_shapes();
        lemma_names_plain();
        lemma_plain("moodle_location"@);
        lemma_plain("token"@);
        let ghost e_ml = spec_escape(c@.moodle_location);
        let ghost e_tok = spec_escape(c@.token);
        assert(sp_config_json(c@) =~= (seq!['{', '"'] + "moodle_location"@ + seq!['"', ':', '"'])
            + e_ml + (seq!['"', ',', '"'] + "token"@ + seq!['"', ':', '"']) + e_tok + seq![
            '"',
            '}',
        ]);
        assert(out@ =~= sp_config_json(c@));
    }
    out
}

/// How the three literal pieces of the document decompose around the two
/// field names.
proof fn lemma_lit_shapes()
    ensures
        ("{\"moodle_location\":\""@) == seq!['{', '"'] + "moodle_location"@ + seq!['"', ':', '"'],
        ("\",\"token\":\""@) == seq!['"', ',', '"'] + "token"@ + seq!['"', ':', '"'],
        ("\"}"@) == seq!['"', '}'],
{
    reveal_strlit("{\"moodle_location\":\"");
    reveal_strlit("\",\"token\":\"");
    reveal_strlit("\"}");
    reveal_strlit("moodle_location");
    reveal_strlit("token");
    assert(("{\"moodle_location\":\""@) =~= seq!['{', '"'] + "moodle_location"@ + seq![
        '"',
        ':',
        '"',
    ]);
    assert(("\",\"token\":\""@) =~= seq!['"', ',', '"'] + "token"@ + seq!['"', ':', '"']);
    assert(("\"}"@) =~= seq!['"', '}']);
}

/// The two field names hold nothing that escaping would touch.
proof fn lemma_names_plain()
    ensures
        plain("moodle_location"@),
        plain("token"@),
{
    reveal_strlit("moodle_location");
    reveal_strlit("token");
}

/// The tail of the written document, from the token member's name on,
/// reads back as that member followed by the closing brace.
#[verifier::rlimit(100)]
proof fn lemma_round_trip_token_member(c: ConfigV)
    ensures
        sp_config_fields(
            sp_quote("token"@) + (seq![':'] + sp_quote(c.token) + seq!['}']),
            Some(c.moodle_location),
            None,
        ) == Some::<(ConfigV, int)>(
            (
                (ConfigV { moodle_location: c.moodle_location, token: c.token }),
                ("token"@.len() as int + 2) + 1 + (spec_escape(c.token).len() as int + 2) + 1,
            ),
        ),
{
    reveal_strlit("token");
    reveal_strlit("moodle_location");
    lemma_names_plain();
    lemma_plain("token"@);
    let name2 = "token"@;
    let rest3 = seq![':'] + sp_quote(c.token) + seq!['}'];
    let u = sp_quote(name2) + rest3;
    assert(u[0] == '"');
    assert(spec_ws_len(u) == 0);
    assert(u.skip(0) =~= u);
    lemma_string_of_quoted(name2, rest3);
    let m1 = name2.len() as int + 2;
    assert(sp_string(u) == Some((name2, m1)));
    let u1 = u.skip(m1);
    assert(u1 =~= rest3);
    assert(u1[0] == ':');
    assert(spec_ws_len(u1) == 0);
    assert(u1.skip(0) =~= u1);
    let rest4 = seq!['}'];
    let u2 = u1.skip(1);
    assert(u2 =~= sp_quote(c.token) + rest4);
    assert(u2[0] == '"');
    assert(spec_ws_len(u2) == 0);
    assert(u2.skip(0) =~= u2);
    lemma_string_of_quoted(c.token, rest4);
    let m2 = spec_escape(c.token).len() as int + 2;
    assert(sp_string(u2) == Some((c.token, m2)));
    let u3 = u2.skip(m2);
    assert(u3 =~= rest4);
    assert(u3[0] == '}');
    assert(spec_ws_len(u3) == 0);
    assert(u3.skip(0) =~= u3);
    assert(name2 != "moodle_location"@);
}

/// Reading a config document written from any settings yields those very
/// settings: the store's round trip loses nothing.
#[verifier::rlimit(100)]
pub proof fn lemma_config_json_round_trip(c: ConfigV)
    ensures
        sp_config(sp_config_json(c)) == Some(c),
{
    let s = sp_config_json(c);
    reveal_strlit("moodle_location");
    reveal_strlit("token");
    lemma_names_plain();
    lemma_plain("moodle_location"@);
    lemma_plain("token"@);

    let name1 = "moodle_location"@;
    let name2 = "token"@;
    let rest1 = seq![':'] + sp_quote(c.moodle_location) + seq![','] + sp_quote(name2) + seq![
        ':'
    ] + sp_quote(c.token) + seq!['}'];
    assert(s[0] == '{');
    assert(spec_ws_len(s) == 0);
    assert(s.skip(0) =~= s);
    assert(s.skip(1) =~= sp_quote(name1) + rest1);

    let t = s.skip(1);
    assert(t[0] == '"');
    assert(spec_ws_len(t) == 0);
    assert(t.skip(0) =~= t);
    lemma_string_of_quoted(name1, rest1);
    let n1 = name1.len() as int + 2;
    assert(sp_string(t) == Some((name1, n1)));

    let t1 = t.skip(n1);
    assert(t1 =~= rest1);
    assert(t1[0] == ':');
    assert(spec_ws_len(t1) == 0);
    assert(t1.skip(0) =~= t1);
    let rest2 = seq![','] + sp_quote(name2) + seq![':'] + sp_quote(c.token) + seq!['}'];
    let t2 = t1.skip(1);
    assert(t2 =~= sp_quote(c.moodle_location) + rest2);
    assert(t2[0] == '"');
    assert(spec_ws_len(t2) == 0);
    assert(t2.skip(0) =~= t2);
    lemma_string_of_quoted(c.moodle_location, rest2);
    let n2 = spec_escape(c.moodle_location).len() as int + 2;
    assert(sp_string(t2) == Some((c.moodle_location, n2)));

    let t3 = t2.skip(n2);
    assert(t3 =~= rest2);
    assert(t3[0] == ',');
    assert(spec_ws_len(t3) == 0);
    assert(t3.skip(0) =~= t3);
    let u = t3.skip(1);
    let rest3 = seq![':'] + sp_quote(c.token) + seq!['}'];
    assert(u =~= sp_quote(name2) + rest3);
    let m1 = name2.len() as int + 2;
    let m2 = spec_escape(c.token).len() as int + 2;
    lemma_round_trip_token_member(c);
    assert(sp_config_fields(u, Some(c.moodle_location), None) == Some(
        (ConfigV { moodle_location: c.moodle_location, token: c.token }, m1 + 1 + m2 + 1),
    ));
    assert(sp_config_fields(t, None, None) == Some(
        (
            ConfigV { moodle_location: c.moodle_location, token: c.token },
            n1 + 1 + n2 + 1 + (m1 + 1 + m2 + 1),
        ),
    ));
    assert(ConfigV { moodle_location: c.moodle_location, token: c.token } == c);
    let total = n1 + 1 + n2 + 1 + (m1 + 1 + m2 + 1);
    assert(s.len() == 1 + total);
    let rest = s.skip(1 + total);
    assert(rest =~= Seq::<char>::empty());
    assert(spec_ws_len(rest) == rest.len());
}

/// `s` with every trailing slash removed.
pub open spec fn spec_trim_slashes(s: Seq<char>) -> Seq<char>
    decreases s.len(),
{
    if s.len() > 0 && s.last() == '/' {
        spec_trim_slashes(s.drop_last())
    } else {
        s
    }
}

/// Trimming strips exactly the trailing slashes: what remains is the
/// longest prefix that does not end in a slash, and everything removed was
/// a slash.
pub proof fn lemma_trim_slashes(s: Seq<char>)
    ensures
        spec_trim_slashes(s).len() <= s.len(),
        spec_trim_slashes(s) == s.take(spec_trim_slashes(s).len() as int),
        spec_trim_slashes(s).len() > 0 ==> spec_trim_slashes(s).last() != '/',
        forall|i: int| spec_trim_slashes(s).len() <= i < s.len() ==> s[i] == '/',
    decreases s.len(),
{
    if s.len() > 0 && s.last() == '/' {
        lemma_trim_slashes(s.drop_last());
        assert(s.take(spec_trim_slashes(s).len() as int) =~= s.drop_last().take(
            spec_trim_slashes(s).len() as int,
        ));
        assert forall|i: int| spec_trim_slashes(s).len() <= i < s.len() implies s[i] == '/' by {
            if i < s.len() - 1 {
                assert(s.drop_last()[i] == s[i]);
            } else {
                assert(s[i] == s.last());
            }
        }
    } else {
        assert(s.take(s.len() as int) =~= s);
    }
}

/// The location as the settings form persists it: trailing slashes
/// stripped.
pub fn normalize_location(s: &str) -> (r: String)
    ensures
        r@ == spec_trim_slashes(s@),
{
    let v = str_to_chars(s);
    let mut end: usize = v.len();
    proof {
        assert(s@.take(end as int) =~= s@);
    }
    while end > 0 && v[end - 1] == '/'
        invariant
            end <= v@.len(),
            v@ == s@,
            spec_trim_slashes(s@) == spec_trim_slashes(s@.take(end as int)),
        decreases end,
    {
        proof {
            assert(s@.take(end as int).last() == s@[end as int - 1]);
            assert(s@.take(end as int).drop_last() =~= s@.take(end as int - 1));
        }
        end = end - 1;
    }
    proof {
        if end > 0 {
            assert(s@.take(end as int).last() == s@[end as int - 1]);
        }
        assert(spec_trim_slashes(s@.take(end as int)) == s@.take(end as int));
    }
    let r = chars_to_string(v.as_slice(), 0, end);
    proof {
        assert(v@.subrange(0, end as int) =~= s@.take(end as int));
    }
    r
}

/// What a run of `retrieve` decides once the store has been read: the
/// settings to go on with, whether the default document must be written
/// back, and whether the settings form must be opened.
pub struct RetrievePlan {
    pub config: Config,
    pub write_default: bool,
    pub run_setup: bool,
}

/// The fallback rule of the config store: stored text that reads as a
/// config document is used as it is; a missing or unreadable document is
/// replaced by the default settings, which are persisted, and the settings
/// form is opened.
pub fn plan_retrieve(contents: &Option<String>) -> (r: RetrievePlan)
    ensures
        (match contents {
            Some(s) => match sp_config(s@) {
                Some(c) => r.config@ == c && !r.write_default && !r.run_setup,
                None => (r.config@.moodle_location == spec_default_location()
                    && r.config@.token == Seq::<char>::empty() && r.write_default && r.run_setup),
            },
            None => (r.config@.moodle_location == spec_default_location()
                && r.config@.token == Seq::<char>::empty() && r.write_default && r.run_setup),
        }),
{
    match contents {
        Some(s) => {
            match parse_config(s.as_str()) {
                Some(cfg) => RetrievePlan { config: cfg, write_default: false, run_setup: false },
                None => RetrievePlan {
                    config: Config::get_initial_config(),
                    write_default: true,
                    run_setup: true,
                },
            }
        },
        None => RetrievePlan {
            config: Config::get_initial_config(),
            write_default: true,
            run_setup: true,
        },
    }
}

/// What the settings form's submission comes to: the message data is read
/// as a config document, and its location is normalized before anything is
/// persisted. Data that does not read as a config document changes
/// nothing.
pub fn apply_setup_submission(data: &str) -> (r: Option<Config>)
    ensures
        (match sp_config(data@) {
            Some(c) => r matches Some(cfg) && cfg@.moodle_location == spec_trim_slashes(
                c.moodle_location,
            ) && cfg@.token == c.token && cfg.location_normalized(),
            None => r is None,
        }),
{
    match parse_config(data) {
        Some(cfg) => {
            let loc = normalize_location(cfg.moodle_location.as_str());
            proof {
                lemma_trim_slashes(cfg.moodle_location@);
            }
            Some(Config { moodle_location: loc, token: cfg.token })
        },
        None => None,
    }
}

} // verus!
