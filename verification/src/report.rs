//! The driver's output formatting: the line for a successful lookup, the
//! line for a failed one, and rendering a whole run's results so that one
//! failure never drops the others.

use vstd::prelude::*;
use vstd::string::*;

use crate::text::{lemma_views_push, views};

verus! {

/// The standard-output line for one successful lookup.
pub open spec fn result_chars(ip: Seq<char>, country: Seq<char>) -> Seq<char> {
    ip + ":"@ + country
}

/// The error-stream line for one failed lookup.
pub open spec fn error_chars(ip: Seq<char>, cause: Seq<char>) -> Seq<char> {
    "Error fetching geolocation for "@ + ip + ": "@ + cause
}

/// Formats `ip:country` for the standard output.
pub fn result_line(ip: &str, country: &str) -> (r: String)
    ensures
        r@ == result_chars(ip@, country@),
{
    let mut s = String::from_str("");
    s.append(ip);
    s.append(":");
    s.append(country);
    proof {
        reveal_strlit("");
        assert(s@ =~= result_chars(ip@, country@));
    }
    s
}

/// Formats the per-IP error message for the error stream.
pub fn error_line(ip: &str, cause: &str) -> (r: String)
    ensures
        r@ == error_chars(ip@, cause@),
{
    let mut s = String::from_str("Error fetching geolocation for ");
    s.append(ip);
    s.append(": ");
    s.append(cause);
    proof {
        assert(s@ =~= error_chars(ip@, cause@));
    }
    s
}

/// The outcome of one IP's lookup: the country found, or the cause of the
/// failure.
#[derive(Debug, PartialEq)]
pub enum Lookup {
    Found(String),
    Failed(String),
}

/// The standard-output lines of a run: one `ip:country` line per successful
/// lookup, in order.
pub open spec fn out_lines(items: Seq<(String, Lookup)>) -> Seq<Seq<char>>
    decreases items.len(),
{
    if items.len() == 0 {
        Seq::empty()
    } else {
        let rest = out_lines(items.drop_last());
        match items.last().1 {
            Lookup::Found(c) => rest.push(result_chars(items.last().0@, c@)),
            Lookup::Failed(_) => rest,
        }
    }
}

/// The error-stream lines of a run: one message per failed lookup, in order.
pub open spec fn err_lines(items: Seq<(String, Lookup)>) -> Seq<Seq<char>>
    decreases items.len(),
{
    if items.len() == 0 {
        Seq::empty()
    } else {
        let rest = err_lines(items.drop_last());
        match items.last().1 {
            Lookup::Found(_) => rest,
            Lookup::Failed(m) => rest.push(error_chars(items.last().0@, m@)),
        }
    }
}

/// Every lookup yields exactly one line, on exactly one stream: a run over
/// `n` IPs produces `n` lines in all, the successes on standard output and
/// the failures on the error stream, so no failure is silently dropped.
pub proof fn lemma_one_line_per_lookup(items: Seq<(String, Lookup)>)
    ensures
        out_lines(items).len() + err_lines(items).len() == items.len(),
    decreases items.len(),
{
    if items.len() > 0 {
        lemma_one_line_per_lookup(items.drop_last());
    }
}

/// Renders a whole run: every successful lookup is printed and every failure
/// is reported, each on its own stream, in input order; a failure never drops
/// another IP's line.
pub fn render_reports(items: &Vec<(String, Lookup)>) -> (r: (Vec<String>, Vec<String>))
    ensures
        views(r.0@) == out_lines(items@),
        views(r.1@) == err_lines(items@),
{
    let mut out: Vec<String> = Vec::new();
    let mut err: Vec<String> = Vec::new();
    let mut k: usize = 0;
    proof {
        assert(items@.subrange(0, 0).len() == 0);
    }
    while k < items.len()
        invariant
            k <= items.len(),
            views(out@) == out_lines(items@.subrange(0, k as int)),
            views(err@) == err_lines(items@.subrange(0, k as int)),
        decreases items.len() - k,
    {
        proof {
            let pre = items@.subrange(0, k as int + 1);
            assert(pre.drop_last() =~= items@.subrange(0, k as int));
            assert(pre.last() == items@[k as int]);
        }
        let item = &items[k];
        match &item.1 {
            Lookup::Found(c) => {
                let line = result_line(item.0.as_str(), c.as_str());
                proof {
                    lemma_views_push(out@, line);
                }
                out.push(line);
            },
            Lookup::Failed(m) => {
                let line = error_line(item.0.as_str(), m.as_str());
                proof {
                    lemma_views_push(err@, line);
                }
                err.push(line);
            },
        }
        k += 1;
    }
    proof {
        assert(items@.subrange(0, items@.len() as int) =~= items@);
    }
    (out, err)
}

} // verus!
