//! Template scanning and interpolation.
//!
//! Two syntactic forms are recognized and substituted in one left-to-right
//! pass each:
//!
//! * `{{NAME}}` where `NAME` is one or more word characters, replaced with
//!   the substitution text of the variable's JSON value;
//! * `$.env.NAME` where `NAME` is a letter or underscore followed by word
//!   characters, replaced with the environment value of that name.
//!
//! A placeholder whose name is not bound stays in the text and is reported
//! to the caller, which turns it into a log entry.

use vstd::prelude::*;
use vstd::string::StringExecFns;
use crate::json::{render_text, JsonValue};
use crate::strmap::StrMap;
use crate::strutil::{append_chars, chars_to_string, copy_range, str_chars};

verus! {

pub open spec fn is_word_char(c: char) -> bool {
    (('a' as u32) <= (c as u32) && (c as u32) <= ('z' as u32)) || (('A' as u32) <= (c as u32) && (
    c as u32) <= ('Z' as u32)) || (('0' as u32) <= (c as u32) && (c as u32) <= ('9' as u32)) || c
        == '_'
}

pub open spec fn is_env_start_char(c: char) -> bool {
    (('a' as u32) <= (c as u32) && (c as u32) <= ('z' as u32)) || (('A' as u32) <= (c as u32) && (
    c as u32) <= ('Z' as u32)) || c == '_'
}

/// Length of the maximal run of word characters starting at `i`.
pub open spec fn word_run(s: Seq<char>, i: int) -> int
    decreases s.len() - i,
{
    if i < 0 || i >= s.len() || !is_word_char(s[i]) {
        0
    } else {
        1 + word_run(s, i + 1)
    }
}

/// Length of the whole `{{NAME}}` placeholder starting at `i`, or 0 when
/// none starts there.
pub open spec fn var_len_at(s: Seq<char>, i: int) -> int {
    let n = word_run(s, i + 2);
    if 0 <= i && i + 2 <= s.len() && s[i] == '{' && s[i + 1] == '{' && n > 0 && i + 2 + n + 2
        <= s.len() && s[i + 2 + n] == '}' && s[i + 2 + n + 1] == '}' {
        n + 4
    } else {
        0
    }
}

/// The name inside the placeholder at `i` (meaningful when `var_len_at > 0`).
pub open spec fn var_name_at(s: Seq<char>, i: int) -> Seq<char> {
    s.subrange(i + 2, i + var_len_at(s, i) - 2)
}

/// Length of the whole `$.env.NAME` reference starting at `i`, or 0 when
/// none starts there.
pub open spec fn env_len_at(s: Seq<char>, i: int) -> int {
    if 0 <= i && i + 7 <= s.len() && s[i] == '$' && s[i + 1] == '.' && s[i + 2] == 'e' && s[i + 3]
        == 'n' && s[i + 4] == 'v' && s[i + 5] == '.' && is_env_start_char(s[i + 6]) && i + 7
        + word_run(s, i + 7) <= s.len() {
        7 + word_run(s, i + 7)
    } else {
        0
    }
}

/// The name inside the environment reference at `i`.
pub open spec fn env_name_at(s: Seq<char>, i: int) -> Seq<char> {
    s.subrange(i + 6, i + env_len_at(s, i))
}

/// All `{{NAME}}` placeholders from `i` on, in text order, each with its
/// braces.
pub open spec fn vars_found(s: Seq<char>, i: int) -> Seq<Seq<char>>
    decreases s.len() - i,
{
    if i < 0 || i >= s.len() {
        Seq::empty()
    } else {
        let l = var_len_at(s, i);
        if l > 0 {
            seq![s.subrange(i, i + l)] + vars_found(s, i + l)
        } else {
            vars_found(s, i + 1)
        }
    }
}

/// All `$.env.NAME` references from `i` on, in text order.
pub open spec fn env_found(s: Seq<char>, i: int) -> Seq<Seq<char>>
    decreases s.len() - i,
{
    if i < 0 || i >= s.len() {
        Seq::empty()
    } else {
        let l = env_len_at(s, i);
        if l > 0 {
            seq![s.subrange(i, i + l)] + env_found(s, i + l)
        } else {
            env_found(s, i + 1)
        }
    }
}

/// The text after substituting every `{{NAME}}` bound in `m`, scanning from
/// `i`; unbound placeholders stay.
pub open spec fn subst_vars(s: Seq<char>, m: Map<Seq<char>, JsonValue>, i: int) -> Seq<char>
    decreases s.len() - i,
{
    if i < 0 || i >= s.len() {
        Seq::empty()
    } else {
        let l = var_len_at(s, i);
        if l > 0 {
            if m.contains_key(var_name_at(s, i)) {
                render_text(m[var_name_at(s, i)]) + subst_vars(s, m, i + l)
            } else {
                s.subrange(i, i + l) + subst_vars(s, m, i + l)
            }
        } else {
            seq![s[i]] + subst_vars(s, m, i + 1)
        }
    }
}

/// The placeholders from `i` on whose names are not bound in `m`.
pub open spec fn missing_vars(s: Seq<char>, m: Map<Seq<char>, JsonValue>, i: int) -> Seq<Seq<char>>
    decreases s.len() - i,
{
    if i < 0 || i >= s.len() {
        Seq::empty()
    } else {
        let l = var_len_at(s, i);
        if l > 0 {
            if m.contains_key(var_name_at(s, i)) {
                missing_vars(s, m, i + l)
            } else {
                seq![s.subrange(i, i + l)] + missing_vars(s, m, i + l)
            }
        } else {
            missing_vars(s, m, i + 1)
        }
    }
}

/// Whether any placeholder from `i` on has a name bound in `m`.
pub open spec fn vars_match(s: Seq<char>, m: Map<Seq<char>, JsonValue>, i: int) -> bool
    decreases s.len() - i,
{
    if i < 0 || i >= s.len() {
        false
    } else {
        let l = var_len_at(s, i);
        if l > 0 {
            m.contains_key(var_name_at(s, i)) || vars_match(s, m, i + l)
        } else {
            vars_match(s, m, i + 1)
        }
    }
}

/// The text after substituting every `$.env.NAME` bound in `env`, scanning
/// from `i`; unbound references stay.
pub open spec fn subst_env(s: Seq<char>, env: Map<Seq<char>, String>, i: int) -> Seq<char>
    decreases s.len() - i,
{
    if i < 0 || i >= s.len() {
        Seq::empty()
    } else {
        let l = env_len_at(s, i);
        if l > 0 {
            if env.contains_key(env_name_at(s, i)) {
                env[env_name_at(s, i)]@ + subst_env(s, env, i + l)
            } else {
                s.subrange(i, i + l) + subst_env(s, env, i + l)
            }
        } else {
            seq![s[i]] + subst_env(s, env, i + 1)
        }
    }
}

/// The environment references from `i` on whose names are not bound.
pub open spec fn missing_env(s: Seq<char>, env: Map<Seq<char>, String>, i: int) -> Seq<Seq<char>>
    decreases s.len() - i,
{
    if i < 0 || i >= s.len() {
        Seq::empty()
    } else {
        let l = env_len_at(s, i);
        if l > 0 {
            if env.contains_key(env_name_at(s, i)) {
                missing_env(s, env, i + l)
            } else {
                seq![s.subrange(i, i + l)] + missing_env(s, env, i + l)
            }
        } else {
            missing_env(s, env, i + 1)
        }
    }
}

/// Whether any environment reference from `i` on has a name bound in `env`.
pub open spec fn env_match(s: Seq<char>, env: Map<Seq<char>, String>, i: int) -> bool
    decreases s.len() - i,
{
    if i < 0 || i >= s.len() {
        false
    } else {
        let l = env_len_at(s, i);
        if l > 0 {
            env.contains_key(env_name_at(s, i)) || env_match(s, env, i + l)
        } else {
            env_match(s, env, i + 1)
        }
    }
}

/// When no placeholder from `i` on matches `m`, variable substitution
/// leaves the text unchanged.
pub proof fn lemma_subst_vars_identity(s: Seq<char>, m: Map<Seq<char>, JsonValue>, i: int)
    requires
        !vars_match(s, m, i),
        0 <= i <= s.len(),
    ensures
        subst_vars(s, m, i) == s.skip(i),
    decreases s.len() - i,
{
    if i >= s.len() {
        assert(s.skip(i) =~= Seq::<char>::empty());
    } else {
        let l = var_len_at(s, i);
        if l > 0 {
            lemma_subst_vars_identity(s, m, i + l);
            assert(s.skip(i) =~= s.subrange(i, i + l) + s.skip(i + l));
        } else {
            lemma_subst_vars_identity(s, m, i + 1);
            assert(s.skip(i) =~= seq![s[i]] + s.skip(i + 1));
        }
    }
}

/// Law: variable interpolation is idempotent once no remaining placeholder
/// matches the variable map — substituting a second time yields the same
/// text.
pub proof fn lemma_vars_interpolation_idempotent(s: Seq<char>, m: Map<Seq<char>, JsonValue>)
    requires
        !vars_match(subst_vars(s, m, 0), m, 0),
    ensures
        subst_vars(subst_vars(s, m, 0), m, 0) == subst_vars(s, m, 0),
{
    lemma_subst_vars_identity(subst_vars(s, m, 0), m, 0);
    assert(subst_vars(s, m, 0).skip(0) =~= subst_vars(s, m, 0));
}

/// When no environment reference from `i` on matches `env`, environment
/// substitution leaves the text unchanged.
pub proof fn lemma_subst_env_identity(s: Seq<char>, env: Map<Seq<char>, String>, i: int)
    requires
        !env_match(s, env, i),
        0 <= i <= s.len(),
    ensures
        subst_env(s, env, i) == s.skip(i),
    decreases s.len() - i,
{
    if i >= s.len() {
        assert(s.skip(i) =~= Seq::<char>::empty());
    } else {
        let l = env_len_at(s, i);
        if l > 0 {
            lemma_subst_env_identity(s, env, i + l);
            assert(s.skip(i) =~= s.subrange(i, i + l) + s.skip(i + l));
        } else {
            lemma_subst_env_identity(s, env, i + 1);
            assert(s.skip(i) =~= seq![s[i]] + s.skip(i + 1));
        }
    }
}

/// Law: environment interpolation is idempotent once no remaining reference
/// matches the environment snapshot.
pub proof fn lemma_env_interpolation_idempotent(s: Seq<char>, env: Map<Seq<char>, String>)
    requires
        !env_match(subst_env(s, env, 0), env, 0),
    ensures
        subst_env(subst_env(s, env, 0), env, 0) == subst_env(s, env, 0),
{
    lemma_subst_env_identity(subst_env(s, env, 0), env, 0);
    assert(subst_env(s, env, 0).skip(0) =~= subst_env(s, env, 0));
}

fn is_word_char_exec(c: char) -> (r: bool)
    ensures
        r == is_word_char(c),
{
    let u = c as u32;
    (('a' as u32) <= u && u <= ('z' as u32)) || (('A' as u32) <= u && u <= ('Z' as u32)) || (('0'
        as u32) <= u && u <= ('9' as u32)) || c == '_'
}

fn is_env_start_char_exec(c: char) -> (r: bool)
    ensures
        r == is_env_start_char(c),
{
    let u = c as u32;
    (('a' as u32) <= u && u <= ('z' as u32)) || (('A' as u32) <= u && u <= ('Z' as u32)) || c == '_'
}

pub(crate) fn word_run_exec(s: &Vec<char>, i: usize) -> (n: usize)
    ensures
        n as int == word_run(s@, i as int),
        i + n <= s@.len() || n == 0,
    decreases s@.len() - i,
{
    if i >= s.len() {
        0
    } else if !is_word_char_exec(s[i]) {
        0
    } else {
        let rest = word_run_exec(s, i + 1);
        1 + rest
    }
}

fn var_len_at_exec(s: &Vec<char>, i: usize) -> (l: usize)
    requires
        i <= s@.len(),
    ensures
        l as int == var_len_at(s@, i as int),
        i + l <= s@.len(),
        l == 0 || l >= 5,
    decreases s@.len() - i,
{
    if s.len() - i < 2 || s[i] != '{' || s[i + 1] != '{' {
        return 0;
    }
    let rem = s.len() - (i + 2);
    let n = word_run_exec(s, i + 2);
    if n > 0 && n + 2 <= rem && s[i + 2 + n] == '}' && s[i + 2 + n + 1] == '}' {
        n + 4
    } else {
        0
    }
}

fn env_len_at_exec(s: &Vec<char>, i: usize) -> (l: usize)
    requires
        i <= s@.len(),
    ensures
        l as int == env_len_at(s@, i as int),
        i + l <= s@.len(),
        l == 0 || l >= 7,
    decreases s@.len() - i,
{
    if s.len() - i < 7 || s[i] != '$' || s[i + 1] != '.' || s[i + 2] != 'e' || s[i + 3] != 'n'
        || s[i + 4] != 'v' || s[i + 5] != '.' || !is_env_start_char_exec(s[i + 6]) {
        return 0;
    }
    let n = word_run_exec(s, i + 7);
    7 + n
}

/// The `{{NAME}}` placeholders of `expr`, in text order, braces included.
pub fn get_vars(expr: &str) -> (r: Vec<String>)
    ensures
        r.deep_view() == vars_found(expr@, 0),
{
    let s = str_chars(expr);
    let mut r: Vec<String> = Vec::new();
    let mut i: usize = 0;
    while i < s.len()
        invariant
            i <= s@.len(),
            s@ == expr@,
            r.deep_view() + vars_found(s@, i as int) == vars_found(s@, 0),
        decreases s@.len() - i,
    {
        let ghost before = r.deep_view();
        let l = var_len_at_exec(&s, i);
        if l > 0 {
            let tok = copy_range(&s, i, i + l);
            r.push(chars_to_string(&tok));
            proof {
                assert(r.deep_view() =~= before.push(s@.subrange(i as int, i as int + l)));
            }
            i = i + l;
        } else {
            i = i + 1;
        }
        proof {
            assert(r.deep_view() + vars_found(s@, i as int) =~= vars_found(s@, 0));
        }
    }
    proof {
        assert(r.deep_view() =~= r.deep_view() + vars_found(s@, s@.len() as int));
    }
    r
}

/// The `$.env.NAME` references of `val`, in text order.
pub fn get_env_variable_paths(val: &str) -> (r: Vec<String>)
    ensures
        r.deep_view() == env_found(val@, 0),
{
    let s = str_chars(val);
    let mut r: Vec<String> = Vec::new();
    let mut i: usize = 0;
    while i < s.len()
        invariant
            i <= s@.len(),
            s@ == val@,
            r.deep_view() + env_found(s@, i as int) == env_found(s@, 0),
        decreases s@.len() - i,
    {
        let ghost before = r.deep_view();
        let l = env_len_at_exec(&s, i);
        if l > 0 {
            let tok = copy_range(&s, i, i + l);
            r.push(chars_to_string(&tok));
            proof {
                assert(r.deep_view() =~= before.push(s@.subrange(i as int, i as int + l)));
            }
            i = i + l;
        } else {
            i = i + 1;
        }
        proof {
            assert(r.deep_view() + env_found(s@, i as int) =~= env_found(s@, 0));
        }
    }
    proof {
        assert(r.deep_view() =~= r.deep_view() + env_found(s@, s@.len() as int));
    }
    r
}

fn subst_vars_rec(
    s: &Vec<char>,
    i: usize,
    vars: &StrMap<JsonValue>,
    out: &mut Vec<char>,
    missing: &mut Vec<String>,
)
    requires
        i <= s@.len(),
    ensures
        final(out)@ == old(out)@ + subst_vars(s@, vars@, i as int),
        final(missing).deep_view() == old(missing).deep_view() + missing_vars(
            s@,
            vars@,
            i as int,
        ),
    decreases s@.len() - i,
{
    if i == s.len() {
        proof {
            assert(final(out)@ =~= old(out)@ + subst_vars(s@, vars@, i as int));
            assert(final(missing).deep_view() =~= old(missing).deep_view() + missing_vars(
                s@,
                vars@,
                i as int,
            ));
        }
        return;
    }
    let l = var_len_at_exec(s, i);
    if l > 0 {
        let name_chars = copy_range(s, i + 2, i + l - 2);
        let name = chars_to_string(&name_chars);
        proof {
            assert(name@ == var_name_at(s@, i as int));
        }
        match vars.get(name.as_str()) {
            Some(v) => {
                let rendered = crate::json::render_value(v);
                let rc = str_chars(rendered.as_str());
                append_chars(out, &rc);
            },
            None => {
                let tok = copy_range(s, i, i + l);
                append_chars(out, &tok);
                missing.push(chars_to_string(&tok));
                proof {
                    assert(missing.deep_view() =~= old(missing).deep_view().push(
                        s@.subrange(i as int, i as int + l),
                    ));
                }
            },
        }
        subst_vars_rec(s, i + l, vars, out, missing);
        proof {
            assert(final(out)@ =~= old(out)@ + subst_vars(s@, vars@, i as int));
            assert(final(missing).deep_view() =~= old(missing).deep_view() + missing_vars(
                s@,
                vars@,
                i as int,
            ));
        }
    } else {
        out.push(s[i]);
        subst_vars_rec(s, i + 1, vars, out, missing);
        proof {
            assert(final(out)@ =~= old(out)@ + subst_vars(s@, vars@, i as int));
            assert(final(missing).deep_view() =~= old(missing).deep_view() + missing_vars(
                s@,
                vars@,
                i as int,
            ));
        }
    }
}

/// Substitutes every `{{NAME}}` placeholder bound in `vars`; returns the
/// new text and the placeholders that stayed because their names were
/// unbound.
pub fn interpolate_vars(input: &str, vars: &StrMap<JsonValue>) -> (r: (String, Vec<String>))
    ensures
        r.0@ == subst_vars(input@, vars@, 0),
        r.1.deep_view() == missing_vars(input@, vars@, 0),
{
    let s = str_chars(input);
    let mut out: Vec<char> = Vec::new();
    let mut missing: Vec<String> = Vec::new();
    subst_vars_rec(&s, 0, vars, &mut out, &mut missing);
    (chars_to_string(&out), missing)
}

fn subst_env_rec(
    s: &Vec<char>,
    i: usize,
    env: &StrMap<String>,
    out: &mut Vec<char>,
    missing: &mut Vec<String>,
)
    requires
        i <= s@.len(),
    ensures
        final(out)@ == old(out)@ + subst_env(s@, env@, i as int),
        final(missing).deep_view() == old(missing).deep_view() + missing_env(s@, env@, i as int),
    decreases s@.len() - i,
{
    if i == s.len() {
        proof {
            assert(final(out)@ =~= old(out)@ + subst_env(s@, env@, i as int));
            assert(final(missing).deep_view() =~= old(missing).deep_view() + missing_env(
                s@,
                env@,
                i as int,
            ));
        }
        return;
    }
    let l = env_len_at_exec(s, i);
    if l > 0 {
        let name_chars = copy_range(s, i + 6, i + l);
        let name = chars_to_string(&name_chars);
        proof {
            assert(name@ == env_name_at(s@, i as int));
        }
        match env.get(name.as_str()) {
            Some(v) => {
                let vc = str_chars(v.as_str());
                append_chars(out, &vc);
            },
            None => {
                let tok = copy_range(s, i, i + l);
                append_chars(out, &tok);
                missing.push(chars_to_string(&tok));
                proof {
                    assert(missing.deep_view() =~= old(missing).deep_view().push(
                        s@.subrange(i as int, i as int + l),
                    ));
                }
            },
        }
        subst_env_rec(s, i + l, env, out, missing);
        proof {
            assert(final(out)@ =~= old(out)@ + subst_env(s@, env@, i as int));
            assert(final(missing).deep_view() =~= old(missing).deep_view() + missing_env(
                s@,
                env@,
                i as int,
            ));
        }
    } else {
        out.push(s[i]);
        subst_env_rec(s, i + 1, env, out, missing);
        proof {
            assert(final(out)@ =~= old(out)@ + subst_env(s@, env@, i as int));
            assert(final(missing).deep_view() =~= old(missing).deep_view() + missing_env(
                s@,
                env@,
                i as int,
            ));
        }
    }
}

/// Substitutes every `$.env.NAME` reference bound in the environment
/// snapshot; returns the new text and the references that stayed because
/// their names were unset.
pub fn interpolate_env(input: &str, env: &StrMap<String>) -> (r: (String, Vec<String>))
    ensures
        r.0@ == subst_env(input@, env@, 0),
        r.1.deep_view() == missing_env(input@, env@, 0),
{
    let s = str_chars(input);
    let mut out: Vec<char> = Vec::new();
    let mut missing: Vec<String> = Vec::new();
    subst_env_rec(&s, 0, env, &mut out, &mut missing);
    (chars_to_string(&out), missing)
}

/// Missing-placeholder log lines: for each reported token, `prefix`, the
/// token, `suffix`, and a newline.
pub open spec fn miss_msgs(
    prefix: Seq<char>,
    suffix: Seq<char>,
    toks: Seq<Seq<char>>,
    i: int,
) -> Seq<char>
    decreases toks.len() - i,
{
    if i < 0 || i >= toks.len() {
        Seq::empty()
    } else {
        prefix + toks[i] + suffix + "\n"@ + miss_msgs(prefix, suffix, toks, i + 1)
    }
}

/// Appends one log line per reported token.
pub(crate) fn append_miss_msgs(
    prefix: &str,
    suffix: &str,
    toks: &Vec<String>,
    i: usize,
    out: &mut String,
)
    requires
        i <= toks@.len(),
    ensures
        final(out)@ == old(out)@ + miss_msgs(prefix@, suffix@, toks.deep_view(), i as int),
    decreases toks@.len() - i,
{
    if i >= toks.len() {
        proof {
            assert(final(out)@ =~= old(out)@ + miss_msgs(
                prefix@,
                suffix@,
                toks.deep_view(),
                i as int,
            ));
        }
        return;
    }
    proof {
        assert(toks.deep_view()[i as int] == toks@[i as int]@);
    }
    out.append(prefix);
    out.append(toks[i].as_str());
    out.append(suffix);
    out.append("\n");
    append_miss_msgs(prefix, suffix, toks, i + 1, out);
    proof {
        assert(final(out)@ =~= old(out)@ + miss_msgs(prefix@, suffix@, toks.deep_view(), i as int));
    }
}

} // verus!
