//! The input collector's logic: choosing the one source of the IP list, and
//! cleaning the lines read from piped standard input.

use vstd::prelude::*;
use vstd::string::*;

use crate::text::{lemma_views_push, trim, trim_str, views};

verus! {

/// The one source that supplies the IP list for a run. Exactly one applies:
/// a requested domain, explicit arguments, piped standard input, or none, in
/// that order of precedence.
#[derive(Debug, PartialEq)]
pub enum InputMode {
    /// A domain was requested; its resolved addresses become the IP list.
    Domain(String),
    /// Explicit IP arguments, used verbatim in the order given.
    Direct(Vec<String>),
    /// No domain, no arguments, standard input is not a terminal: read lines.
    Piped,
    /// No source at all: report usage and stop without network activity.
    NoInput,
}

/// Chooses the input mode from the requested domain, the explicit arguments,
/// and whether standard input is attached to an interactive terminal.
pub fn select_mode(domain: Option<String>, ips: Vec<String>, stdin_is_tty: bool) -> (m: InputMode)
    ensures
        domain matches Some(d) ==> m == InputMode::Domain(d),
        domain is None && ips.len() > 0 ==> m == InputMode::Direct(ips),
        domain is None && ips.len() == 0 && !stdin_is_tty ==> m == InputMode::Piped,
        domain is None && ips.len() == 0 && stdin_is_tty ==> m == InputMode::NoInput,
{
    match domain {
        Some(d) => InputMode::Domain(d),
        None => {
            if ips.len() > 0 {
                InputMode::Direct(ips)
            } else if !stdin_is_tty {
                InputMode::Piped
            } else {
                InputMode::NoInput
            }
        },
    }
}

/// The piped lines after cleaning: each line trimmed, blank lines dropped,
/// order preserved.
pub open spec fn cleaned(lines: Seq<Seq<char>>) -> Seq<Seq<char>>
    decreases lines.len(),
{
    if lines.len() == 0 {
        Seq::empty()
    } else {
        let rest = cleaned(lines.drop_last());
        let t = trim(lines.last());
        if t.len() > 0 {
            rest.push(t)
        } else {
            rest
        }
    }
}

/// Cleaning leaves no blank entry: every cleaned line is non-empty, and each
/// is the trimmed form of one of the input lines.
pub proof fn lemma_cleaned_nonblank(lines: Seq<Seq<char>>)
    ensures
        forall|i: int| 0 <= i < cleaned(lines).len() ==> (#[trigger] cleaned(lines)[i]).len() > 0,
        forall|i: int| 0 <= i < cleaned(lines).len() ==> (exists|j: int|
            0 <= j < lines.len() && (#[trigger] cleaned(lines)[i]) == trim(lines[j])),
    decreases lines.len(),
{
    if lines.len() == 0 {
    } else {
        lemma_cleaned_nonblank(lines.drop_last());
        let rest = cleaned(lines.drop_last());
        assert forall|i: int|
            0 <= i < cleaned(lines).len() implies (#[trigger] cleaned(lines)[i]).len() > 0 && (exists|
            j: int,
        |
            0 <= j < lines.len() && cleaned(lines)[i] == trim(lines[j])) by {
            if i < rest.len() {
                assert(cleaned(lines)[i] == rest[i]);
                let w = choose|w: int|
                    0 <= w < lines.drop_last().len() && rest[i] == trim(lines.drop_last()[w]);
                assert(lines.drop_last()[w] == lines[w]);
            } else {
                assert(cleaned(lines)[i] == trim(lines.last()));
                assert(lines.last() == lines[lines.len() - 1]);
            }
        }
    }
}

/// Trims each line and drops the blank ones, keeping the input order.
pub fn clean_lines(lines: &Vec<String>) -> (r: Vec<String>)
    ensures
        views(r@) == cleaned(views(lines@)),
{
    let mut out: Vec<String> = Vec::new();
    let mut k: usize = 0;
    proof {
        assert(views(lines@).subrange(0, 0).len() == 0);
    }
    while k < lines.len()
        invariant
            k <= lines.len(),
            views(out@) == cleaned(views(lines@).subrange(0, k as int)),
        decreases lines.len() - k,
    {
        let t = trim_str(lines[k].as_str());
        proof {
            let pre = views(lines@).subrange(0, k as int + 1);
            assert(pre.drop_last() =~= views(lines@).subrange(0, k as int));
            assert(pre.last() == lines@[k as int]@);
        }
        if t.unicode_len() > 0 {
            let line = t.to_owned();
            proof {
                lemma_views_push(out@, line);
            }
            out.push(line);
        }
        k += 1;
    }
    proof {
        assert(views(lines@).subrange(0, lines@.len() as int) =~= views(lines@));
    }
    out
}

} // verus!
