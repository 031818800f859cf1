//! The configuration reader's logic: finding the `api_key` entry in the text
//! of a `key = value` configuration file with `#` comments.

use vstd::prelude::*;
use vstd::string::*;

use crate::text::{
    char_index, find_char, is_space, lemma_char_index_is, lemma_trim_end, lemma_trim_start,
    split_lines, split_lines_str, str_equal, trim, trim_str, views,
};

verus! {

/// Failure of the configuration reader: the file held no usable `api_key`.
#[derive(Clone, Copy, PartialEq, Eq, Structural, Debug)]
pub enum ConfigError {
    KeyNotFound,
}

impl ConfigError {
    pub fn message(&self) -> (r: String)
        ensures
            r@ == "api_key not found in config file"@,
    {
        String::from_str("api_key not found in config file")
    }
}

/// The `api_key` value a single line yields, if any: the line is cut at its
/// first `#`, trimmed, split at its first `=`; it yields its trimmed value
/// exactly when the trimmed key is `api_key` and the trimmed value is
/// non-empty.
pub open spec fn line_value(line: Seq<char>) -> Option<Seq<char>> {
    let h = char_index(line, '#');
    let eff = trim(if 0 <= h <= line.len() {
        line.subrange(0, h)
    } else {
        line
    });
    if eff.len() == 0 {
        Option::None
    } else {
        let e = char_index(eff, '=');
        if 0 <= e < eff.len() {
            let key = trim(eff.subrange(0, e));
            let value = trim(eff.subrange(e + 1, eff.len() as int));
            if key == "api_key"@ && value.len() > 0 {
                Option::Some(value)
            } else {
                Option::None
            }
        } else {
            Option::None
        }
    }
}

/// The value of the first line that yields one, scanning top to bottom.
pub open spec fn first_value(lines: Seq<Seq<char>>) -> Option<Seq<char>>
    decreases lines.len(),
{
    if lines.len() == 0 {
        Option::None
    } else {
        match line_value(lines[0]) {
            Option::Some(v) => Option::Some(v),
            Option::None => first_value(lines.subrange(1, lines.len() as int)),
        }
    }
}

/// The `api_key` value of a whole configuration text.
pub open spec fn config_value(content: Seq<char>) -> Option<Seq<char>> {
    first_value(split_lines(content))
}

/// The value a single line yields, as `line_value` states it.
pub fn line_value_str(line: &str) -> (r: Option<String>)
    ensures
        r matches Some(v) ==> line_value(line@) == Option::Some(v@),
        r is None ==> line_value(line@) is None,
{
    let h = find_char(line, '#');
    let eff = trim_str(line.substring_char(0, h));
    if eff.unicode_len() == 0 {
        return None;
    }
    let e = find_char(eff, '=');
    if e == eff.unicode_len() {
        return None;
    }
    let key = trim_str(eff.substring_char(0, e));
    let value = trim_str(eff.substring_char(e + 1, eff.unicode_len()));
    if str_equal(key, "api_key") && value.unicode_len() > 0 {
        Some(value.to_owned())
    } else {
        None
    }
}

/// Skipping a prefix of lines that yield nothing does not change the result.
pub proof fn lemma_first_value_skip(lines: Seq<Seq<char>>, k: int)
    requires
        0 <= k <= lines.len(),
        forall|j: int| 0 <= j < k ==> line_value(lines[j]) is None,
    ensures
        first_value(lines) == first_value(lines.subrange(k, lines.len() as int)),
    decreases k,
{
    if k == 0 {
        assert(lines.subrange(0, lines.len() as int) =~= lines);
    } else {
        let t = lines.subrange(1, lines.len() as int);
        lemma_first_value_skip(t, k - 1);
        assert(t.subrange(k - 1, t.len() as int) =~= lines.subrange(k, lines.len() as int));
    }
}

/// Parses the text of a configuration file and returns the `api_key` value:
/// comments stripped, whitespace trimmed, blank lines skipped, first matching
/// line wins; an absent key or an empty value is `KeyNotFound`.
pub fn parse_api_key(content: &str) -> (r: Result<String, ConfigError>)
    ensures
        r matches Ok(k) ==> config_value(content@) == Option::Some(k@),
        r matches Err(e) ==> config_value(content@) is None && e == ConfigError::KeyNotFound,
{
    let lines = split_lines_str(content);
    let ghost ls = split_lines(content@);
    let mut k: usize = 0;
    while k < lines.len()
        invariant
            k <= lines.len(),
            views(lines@) == ls,
            ls == split_lines(content@),
            forall|j: int| 0 <= j < k ==> line_value(ls[j]) is None,
        decreases lines.len() - k,
    {
        if let Some(v) = line_value_str(lines[k].as_str()) {
            proof {
                lemma_first_value_skip(ls, k as int);
                let rest = ls.subrange(k as int, ls.len() as int);
                assert(rest[0] == ls[k as int]);
            }
            return Ok(v);
        }
        k += 1;
    }
    proof {
        lemma_first_value_skip(ls, ls.len() as int);
        assert(ls.subrange(ls.len() as int, ls.len() as int).len() == 0);
    }
    Err(ConfigError::KeyNotFound)
}

/// The message the tool reports when the configuration file cannot be read,
/// with the path and the underlying cause.
pub fn unreadable_config_message(path: &str, cause: &str) -> (r: String)
    ensures
        r@ == "Failed to read config "@ + path@ + ": "@ + cause@,
{
    let mut s = String::from_str("Failed to read config ");
    s.append(path);
    s.append(": ");
    s.append(cause);
    proof {
        assert(s@ =~= "Failed to read config "@ + path@ + ": "@ + cause@);
    }
    s
}

/// A well-formed entry yields exactly its value: a line that reads
/// `api_key = X`, where `X` is non-empty, holds no `#`, and neither starts
/// nor ends with whitespace, yields `X`.
pub proof fn lemma_well_formed_line(x: Seq<char>)
    requires
        x.len() > 0,
        forall|j: int| 0 <= j < x.len() ==> x[j] != '#',
        !is_space(x[0]),
        !is_space(x[x.len() - 1]),
    ensures
        line_value("api_key = "@ + x) == Option::Some(x),
{
    reveal_strlit("api_key = ");
    reveal_strlit("api_key");
    let l = "api_key = "@ + x;
    assert(l.len() == 10 + x.len());
    assert forall|j: int| 0 <= j < l.len() implies l[j] != '#' by {
        if j >= 10 {
            assert(l[j] == x[j - 10]);
        }
    }
    lemma_char_index_is(l, '#', l.len() as int);
    assert(l.subrange(0, l.len() as int) =~= l);
    lemma_trim_start(l, 0);
    assert(l.subrange(0, l.len() as int) =~= l);
    lemma_trim_end(l, l.len() as int);
    let eff = trim(l);
    assert(eff == l);
    assert forall|j: int| 0 <= j < 8 implies l[j] != '=' by {}
    assert(l[8] == '=');
    lemma_char_index_is(l, '=', 8);
    let k0 = l.subrange(0, 8);
    assert(k0[0] == 'a' && !is_space(k0[0]));
    lemma_trim_start(k0, 0);
    assert(k0.subrange(0, 8) =~= k0);
    assert(is_space(k0[7]) && !is_space(k0[6]));
    lemma_trim_end(k0, 7);
    assert(k0.subrange(0, 7) =~= "api_key"@);
    assert(trim(k0) == "api_key"@);
    let v0 = l.subrange(9, l.len() as int);
    assert(v0.len() == 1 + x.len());
    assert(is_space(v0[0]));
    assert(v0[1] == x[0] && !is_space(v0[1]));
    lemma_trim_start(v0, 1);
    assert(v0.subrange(1, v0.len() as int) =~= x);
    assert(x.len() > 0 && !is_space(x[x.len() - 1]));
    lemma_trim_end(x, x.len() as int);
    assert(x.subrange(0, x.len() as int) =~= x);
    assert(trim(v0) == x);
}

/// A whole well-formed configuration yields its entry's value: if line `i`
/// reads `api_key = X` with `X` as `lemma_well_formed_line` asks, and every
/// earlier line yields nothing, the configuration yields exactly `X`,
/// whatever the surrounding comments, blank lines and whitespace hold.
pub proof fn lemma_config_well_formed(content: Seq<char>, i: int, x: Seq<char>)
    requires
        0 <= i < split_lines(content).len(),
        split_lines(content)[i] == "api_key = "@ + x,
        x.len() > 0,
        forall|j: int| 0 <= j < x.len() ==> x[j] != '#',
        !is_space(x[0]),
        !is_space(x[x.len() - 1]),
        forall|j: int| 0 <= j < i ==> line_value(split_lines(content)[j]) is None,
    ensures
        config_value(content) == Option::Some(x),
{
    lemma_well_formed_line(x);
    lemma_config_first_match(content, i);
}

/// First match wins: if line `i` yields a value and every earlier line yields
/// none, the configuration text yields exactly line `i`'s value.
pub proof fn lemma_config_first_match(content: Seq<char>, i: int)
    requires
        0 <= i < split_lines(content).len(),
        line_value(split_lines(content)[i]) is Some,
        forall|j: int| 0 <= j < i ==> line_value(split_lines(content)[j]) is None,
    ensures
        config_value(content) == line_value(split_lines(content)[i]),
{
    let ls = split_lines(content);
    lemma_first_value_skip(ls, i);
    let rest = ls.subrange(i, ls.len() as int);
    assert(rest[0] == ls[i]);
}

} // verus!
