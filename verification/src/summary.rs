//! The default-branch summary, the one non-trivial operation above the
//! generic runner.
//!
//! The summary needs three `git` invocations in turn: the short
//! symbolic name of `refs/remotes/origin/HEAD`, the fetch URL of
//! `origin`, and a left-right commit count over the range
//! `<branch>...<branch without its origin/ prefix>`.  Spawning children
//! is the host's work; deciding is this crate's.  The machine below
//! hands out the argument vector of the next invocation, consumes each
//! child's standard output, and either finishes with the summary record
//! or fails with a structured error.

use vstd::prelude::*;
use vstd::string::StringExecFns;
use vstd::arithmetic::div_mod::lemma_fundamental_div_mod;
use crate::error::GitError;
use crate::response::{lossy_of, lossy_string};
use crate::text::{
    digit_val,
    trim_right, trim_trailing, origin_prefix, strip_origin_prefix, is_digit, all_digits, dec_val,
    parse_u64, append_bytes, sub_bytes,
};
use crate::timestamp::{timestamp_of, format_utc_timestamp, dec_bytes, lemma_dec_bytes_ascii};

verus! {

/// What the front-end learns about the repository's default branch.
#[derive(Debug, Clone, PartialEq)]
pub struct BranchSummary {
    /// The short name of `refs/remotes/origin/HEAD`, e.g. `origin/main`.
    pub branch_name: String,
    /// The fetch URL of the `origin` remote.
    pub remote_url: String,
    /// Commits the local branch is behind its remote counterpart.
    pub behind: u64,
    /// Commits the local branch is ahead of its remote counterpart.
    pub ahead: u64,
    /// When this summary was computed, `YYYY-MM-DD HH:MM:SS UTC`.
    pub last_fetched: String,
}

/// Position `i` splits `t` into two tab-separated decimal counts that
/// fit in `u64`.
pub open spec fn count_split_at(t: Seq<u8>, i: int) -> bool {
    &&& 0 <= i < t.len()
    &&& t[i] == 9
    &&& t.take(i).len() > 0
    &&& all_digits(t.take(i))
    &&& dec_val(t.take(i)) <= u64::MAX
    &&& t.skip(i + 1).len() > 0
    &&& all_digits(t.skip(i + 1))
    &&& dec_val(t.skip(i + 1)) <= u64::MAX
}

/// A trimmed `rev-list --left-right --count` line has the expected
/// shape: two tab-separated decimal counts, each fitting in `u64`.
pub open spec fn counts_shape(t: Seq<u8>) -> bool {
    exists|i: int| count_split_at(t, i)
}

pub open spec fn counts_split(t: Seq<u8>) -> int {
    choose|i: int| count_split_at(t, i)
}

/// The first count: commits only on the remote side of the range.
pub open spec fn behind_of(t: Seq<u8>) -> nat {
    dec_val(t.take(counts_split(t)))
}

/// The second count: commits only on the local side of the range.
pub open spec fn ahead_of(t: Seq<u8>) -> nat {
    dec_val(t.skip(counts_split(t) + 1))
}

/// Only one position can split a counts line: digits are never tabs.
proof fn lemma_count_split_unique(t: Seq<u8>, i: int, j: int)
    requires
        count_split_at(t, i),
        count_split_at(t, j),
    ensures
        i == j,
{
    if i < j {
        assert(t.take(j)[i] == t[i]);
        assert(!is_digit(t.take(j)[i]));
    }
    if j < i {
        assert(t.take(i)[j] == t[j]);
        assert(!is_digit(t.take(i)[j]));
    }
}

/// Reads a `rev-list --left-right --count` line.  After trimming
/// trailing whitespace the line must be two tab-separated decimal
/// counts; the first is how far the local branch is behind, the second
/// how far it is ahead.
pub fn parse_counts(line: &Vec<u8>) -> (r: Result<(u64, u64), GitError>)
    ensures
        r is Ok <==> counts_shape(trim_right(line@)),
        r matches Ok(p) ==> p.0 == behind_of(trim_right(line@)) && p.1 == ahead_of(
            trim_right(line@),
        ),
        r matches Err(e) ==> e is ParseFailure,
{
    let t = trim_trailing(line);
    let mut i: usize = 0;
    loop
        invariant
            i <= t@.len(),
            forall|k: int| 0 <= k < i ==> t@[k] != 9,
        ensures
            i <= t@.len(),
            forall|k: int| 0 <= k < i ==> t@[k] != 9,
            i < t@.len() ==> t@[i as int] == 9,
        decreases t@.len() - i,
    {
        if i == t.len() {
            break;
        }
        if t[i] == 9 {
            break;
        }
        i = i + 1;
    }
    if i == t.len() {
        proof {
            if counts_shape(t@) {
                let j = counts_split(t@);
                assert(count_split_at(t@, j));
                assert(false);
            }
        }
        return Err(
            GitError::ParseFailure {
                message: String::from_str("rev-list count output has no tab separator"),
            },
        );
    }
    let left = sub_bytes(&t, 0, i);
    let right = sub_bytes(&t, i + 1, t.len());
    proof {
        assert(left@ == t@.take(i as int));
        assert(right@ == t@.skip(i as int + 1));
    }
    let behind = match parse_u64(&left) {
        Some(b) => b,
        None => {
            proof {
                if counts_shape(t@) {
                    let j = counts_split(t@);
                    assert(count_split_at(t@, j));
                    if j < i {
                        assert(t@[j] == 9);
                        assert(false);
                    }
                    if j > i {
                        assert(t@.take(j)[i as int] == t@[i as int]);
                        assert(!is_digit(t@.take(j)[i as int]));
                        assert(false);
                    }
                    assert(j == i);
                    assert(false);
                }
            }
            return Err(
                GitError::ParseFailure {
                    message: String::from_str("rev-list behind count is not a number"),
                },
            );
        },
    };
    let ahead = match parse_u64(&right) {
        Some(a) => a,
        None => {
            proof {
                if counts_shape(t@) {
                    let j = counts_split(t@);
                    assert(count_split_at(t@, j));
                    if j < i {
                        assert(t@[j] == 9);
                        assert(false);
                    }
                    if j > i {
                        assert(t@.take(j)[i as int] == t@[i as int]);
                        assert(!is_digit(t@.take(j)[i as int]));
                        assert(false);
                    }
                    assert(j == i);
                    assert(false);
                }
            }
            return Err(
                GitError::ParseFailure {
                    message: String::from_str("rev-list ahead count is not a number"),
                },
            );
        },
    };
    proof {
        assert(count_split_at(t@, i as int));
        lemma_count_split_unique(t@, counts_split(t@), i as int);
    }
    Ok((behind, ahead))
}

/// Where the default-branch summary stands between `git` invocations.
#[derive(Debug, Clone, PartialEq)]
pub enum SummaryState {
    /// Wants `git symbolic-ref --short refs/remotes/origin/HEAD`.
    AwaitHead,
    /// Wants `git remote get-url origin`.  `branch` is the trimmed
    /// symbolic name, `local` the part after its `origin/` prefix.
    AwaitUrl { branch: Vec<u8>, local: Vec<u8> },
    /// Wants `git rev-list --left-right --count <branch>...<local>`.
    AwaitCounts { branch: Vec<u8>, local: Vec<u8>, url: Vec<u8> },
    /// The summary is complete.
    Finished { summary: BranchSummary },
    /// One step failed; the machine stays here.
    Failed { error: GitError },
}

/// A fresh summary computation.
pub fn summary_start() -> (r: SummaryState)
    ensures
        r is AwaitHead,
{
    SummaryState::AwaitHead
}

/// The argument vector of the `git` invocation the machine wants run
/// next, or `None` once it has finished or failed.  The vector is
/// handed to the child verbatim; nothing here is a shell string.
pub fn next_request(state: &SummaryState) -> (r: Option<Vec<String>>)
    ensures
        state is AwaitHead ==> (r matches Some(a) && a@.len() == 3 && a@[0]@ == "symbolic-ref"@
            && a@[1]@ == "--short"@ && a@[2]@ == "refs/remotes/origin/HEAD"@),
        state is AwaitUrl ==> (r matches Some(a) && a@.len() == 3 && a@[0]@ == "remote"@
            && a@[1]@ == "get-url"@ && a@[2]@ == "origin"@),
        state matches SummaryState::AwaitCounts { branch, local, .. } ==> (r matches Some(a)
            && a@.len() == 4 && a@[0]@ == "rev-list"@ && a@[1]@ == "--left-right"@ && a@[2]@
            == "--count"@ && a@[3]@ == lossy_of(branch@ + seq![46u8, 46u8, 46u8] + local@)),
        state is Finished ==> r is None,
        state is Failed ==> r is None,
{
    match state {
        SummaryState::AwaitHead => {
            let mut a: Vec<String> = Vec::new();
            a.push(String::from_str("symbolic-ref"));
            a.push(String::from_str("--short"));
            a.push(String::from_str("refs/remotes/origin/HEAD"));
            Some(a)
        },
        SummaryState::AwaitUrl { .. } => {
            let mut a: Vec<String> = Vec::new();
            a.push(String::from_str("remote"));
            a.push(String::from_str("get-url"));
            a.push(String::from_str("origin"));
            Some(a)
        },
        SummaryState::AwaitCounts { branch, local, .. } => {
            let mut range: Vec<u8> = Vec::new();
            append_bytes(&mut range, branch);
            range.push(46);
            range.push(46);
            range.push(46);
            append_bytes(&mut range, local);
            proof {
                assert(range@ =~= branch@ + seq![46u8, 46u8, 46u8] + local@);
            }
            let mut a: Vec<String> = Vec::new();
            a.push(String::from_str("rev-list"));
            a.push(String::from_str("--left-right"));
            a.push(String::from_str("--count"));
            a.push(lossy_string(&range));
            Some(a)
        },
        SummaryState::Finished { .. } => None,
        SummaryState::Failed { .. } => None,
    }
}

/// Feeds the machine the standard output of the invocation it asked
/// for.  `now_secs` is the current time in seconds since the Unix
/// epoch; it only enters the final record's `last_fetched` field.
///
/// From `AwaitHead`, an empty answer or one without the `origin/`
/// prefix is a configuration error, never a summary of zeros.  From
/// `AwaitCounts`, anything but two tab-separated decimal counts is a
/// parse failure.  A finished or failed machine stays as it is.
pub fn advance(state: SummaryState, stdout: Vec<u8>, now_secs: u64) -> (r: SummaryState)
    ensures
        state is AwaitHead ==> ({
            let t = trim_right(stdout@);
            &&& (t.len() > 7 && t.take(7) == origin_prefix()) ==> (r matches
                SummaryState::AwaitUrl { branch, local } && branch@ == t && local@ == t.skip(7))
            &&& !(t.len() > 7 && t.take(7) == origin_prefix()) ==> (r matches
                SummaryState::Failed { error } && error is ConfigurationError)
        }),
        state matches SummaryState::AwaitUrl { branch, local } ==> (r matches
            SummaryState::AwaitCounts { branch: b2, local: l2, url } && b2 == branch && l2
            == local && url@ == trim_right(stdout@)),
        state matches SummaryState::AwaitCounts { branch, local, url } ==> ({
            let t = trim_right(stdout@);
            &&& counts_shape(t) ==> (r matches SummaryState::Finished { summary }
                && summary.branch_name@ == lossy_of(branch@) && summary.remote_url@ == lossy_of(
                url@,
            ) && summary.behind == behind_of(t) && summary.ahead == ahead_of(t)
                && summary.last_fetched@ == timestamp_of(now_secs as nat))
            &&& !counts_shape(t) ==> (r matches SummaryState::Failed { error }
                && error is ParseFailure)
        }),
        state is Finished ==> r == state,
        state is Failed ==> r == state,
{
    match state {
        SummaryState::AwaitHead => {
            let t = trim_trailing(&stdout);
            if t.len() == 0 {
                return SummaryState::Failed {
                    error: GitError::ConfigurationError {
                        message: String::from_str("origin HEAD is not set"),
                    },
                };
            }
            match strip_origin_prefix(&t) {
                Some(local) => SummaryState::AwaitUrl { branch: t, local },
                None => SummaryState::Failed {
                    error: GitError::ConfigurationError {
                        message: String::from_str(
                            "origin HEAD does not name a branch under origin/",
                        ),
                    },
                },
            }
        },
        SummaryState::AwaitUrl { branch, local } => {
            let url = trim_trailing(&stdout);
            SummaryState::AwaitCounts { branch, local, url }
        },
        SummaryState::AwaitCounts { branch, local: _, url } => {
            match parse_counts(&stdout) {
                Ok(counts) => {
                    let summary = BranchSummary {
                        branch_name: lossy_string(&branch),
                        remote_url: lossy_string(&url),
                        behind: counts.0,
                        ahead: counts.1,
                        last_fetched: format_utc_timestamp(now_secs),
                    };
                    SummaryState::Finished { summary }
                },
                Err(error) => SummaryState::Failed { error },
            }
        },
        SummaryState::Finished { summary } => SummaryState::Finished { summary },
        SummaryState::Failed { error } => SummaryState::Failed { error },
    }
}

/// A decimal rendering denotes the number it was rendered from.
proof fn lemma_dec_val_of_dec_bytes(n: nat)
    ensures
        dec_val(dec_bytes(n)) == n,
    decreases n,
{
    if n < 10 {
        assert(dec_bytes(n).drop_last() =~= Seq::<u8>::empty());
        assert(dec_bytes(n).last() == (48 + n) as u8);
        assert(dec_val(Seq::<u8>::empty()) == 0);
        assert(digit_val((48 + n) as u8) == n);
    } else {
        lemma_dec_val_of_dec_bytes(n / 10);
        assert(dec_bytes(n).drop_last() =~= dec_bytes(n / 10));
        assert(dec_bytes(n).last() == (48 + n % 10) as u8);
        assert(digit_val((48 + n % 10) as u8) == n % 10);
        assert(dec_val(dec_bytes(n)) == dec_val(dec_bytes(n / 10)) * 10 + digit_val(
            dec_bytes(n).last(),
        ));
        lemma_fundamental_div_mod(n as int, 10);
    }
}

/// Ahead/behind arithmetic, end to end: when the local branch is
/// `behind` commits behind and `ahead` commits ahead, `git rev-list
/// --left-right --count` prints the two counts tab-separated, and the
/// summary reads back exactly those numbers.
pub proof fn lemma_counts_round_trip(behind: u64, ahead: u64)
    ensures
        ({
            let line = dec_bytes(behind as nat) + seq![9u8] + dec_bytes(ahead as nat);
            &&& trim_right(line) == line
            &&& counts_shape(line)
            &&& behind_of(line) == behind
            &&& ahead_of(line) == ahead
        }),
{
    let line = dec_bytes(behind as nat) + seq![9u8] + dec_bytes(ahead as nat);
    let i = dec_bytes(behind as nat).len() as int;
    lemma_dec_bytes_ascii(behind as nat);
    lemma_dec_bytes_ascii(ahead as nat);
    lemma_dec_val_of_dec_bytes(behind as nat);
    lemma_dec_val_of_dec_bytes(ahead as nat);
    assert(line.take(i) =~= dec_bytes(behind as nat));
    assert(line.skip(i + 1) =~= dec_bytes(ahead as nat));
    assert(line[line.len() - 1] == dec_bytes(ahead as nat)[dec_bytes(ahead as nat).len() - 1]);
    assert(count_split_at(line, i));
    lemma_count_split_unique(line, counts_split(line), i);
}

} // verus!
