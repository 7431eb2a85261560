//! Where a configuration is looked for, and how a run names its scratch
//! directory. Nothing here touches the file system: the caller says which
//! candidates exist.

use vstd::prelude::*;
use vstd::string::*;

verus! {

/// The places where the configuration is looked for, in the order in which
/// they are tried: two below the home directory, two below `/etc`.
pub open spec fn candidate_paths(home: Seq<char>) -> Seq<Seq<char>> {
    seq![
        home + "/.i3/config"@,
        home + "/.config/i3/config"@,
        "/etc/i3/config"@,
        "/etc/xdg/i3/config"@,
    ]
}

/// The texts of a list of strings.
pub open spec fn texts(paths: Seq<String>) -> Seq<Seq<char>> {
    Seq::new(paths.len(), |i: int| paths[i]@)
}

/// The index of the first `true`, if there is one.
pub open spec fn first_true(flags: Seq<bool>) -> Option<int>
    decreases flags.len(),
{
    if flags.len() == 0 {
        None
    } else if flags[0] {
        Some(0)
    } else {
        match first_true(flags.skip(1)) {
            Some(i) => Some(i + 1),
            None => None,
        }
    }
}

/// The first `true` is `true`, and nothing before it is.
pub proof fn lemma_first_true(flags: Seq<bool>)
    ensures
        match first_true(flags) {
            Some(i) => 0 <= i < flags.len() && flags[i] && forall|j: int| 0 <= j < i ==> !flags[j],
            None => forall|j: int| 0 <= j < flags.len() ==> !flags[j],
        },
    decreases flags.len(),
{
    if flags.len() > 0 && !flags[0] {
        let rest = flags.skip(1);
        lemma_first_true(rest);
        match first_true(rest) {
            Some(i) => {
                assert(flags[i + 1] == rest[i]);
                assert forall|j: int| 0 <= j < i + 1 implies !flags[j] by {
                    if j > 0 {
                        assert(flags[j] == rest[j - 1]);
                    }
                }
            },
            None => {
                assert forall|j: int| 0 <= j < flags.len() implies !flags[j] by {
                    if j > 0 {
                        assert(flags[j] == rest[j - 1]);
                    }
                }
            },
        }
    }
}

/// Which of `count` candidates exist: those of which `exists` says so.
pub open spec fn known(count: nat, exists: Seq<bool>) -> Seq<bool> {
    Seq::new(count, |i: int| i < exists.len() && exists[i])
}

/// Lists the places where the configuration is looked for.
pub fn config_candidates(home: &str) -> (paths: Vec<String>)
    ensures
        texts(paths@) == candidate_paths(home@),
{
    let mut paths: Vec<String> = Vec::new();
    paths.push(String::from_str(home).concat("/.i3/config"));
    paths.push(String::from_str(home).concat("/.config/i3/config"));
    paths.push(String::from_str("/etc/i3/config"));
    paths.push(String::from_str("/etc/xdg/i3/config"));
    assert(texts(paths@) =~= candidate_paths(home@));
    paths
}

/// Picks the first candidate that exists; `exists` says of each candidate
/// whether it does. A candidate of which `exists` says nothing does not.
pub fn first_existing(paths: &Vec<String>, exists: &[bool]) -> (r: Option<usize>)
    ensures
        match r {
            Some(i) => i < paths@.len() && first_true(known(paths@.len(), exists@)) == Some(i as int),
            None => first_true(known(paths@.len(), exists@)) is None,
        },
{
    let n: usize = if exists.len() < paths.len() {
        exists.len()
    } else {
        paths.len()
    };
    let ghost flags = known(paths@.len(), exists@);
    let mut i: usize = 0;
    proof {
        lemma_first_true(flags);
    }
    while i < n
        invariant
            i <= n,
            n <= exists@.len(),
            n <= paths@.len(),
            n == paths@.len() || n == exists@.len(),
            flags == known(paths@.len(), exists@),
            forall|j: int| 0 <= j < i ==> !flags[j],
            match first_true(flags) {
                Some(k) => 0 <= k < flags.len() && flags[k] && forall|j: int| 0 <= j < k ==> !flags[j],
                None => forall|j: int| 0 <= j < flags.len() ==> !flags[j],
            },
        decreases n - i,
    {
        if exists[i] {
            assert(flags[i as int]);
            return Some(i);
        }
        i += 1;
    }
    None
}

/// The number that names the scratch directory of a run that starts `secs`
/// seconds and `subsec_nanos` nanoseconds after the epoch: the seconds plus
/// the milliseconds of the running second. `None` where that does not fit.
pub fn run_stamp(secs: u64, subsec_nanos: u32) -> (r: Option<u64>)
    ensures
        match r {
            Some(v) => v == secs + subsec_nanos / 1_000_000,
            None => secs + subsec_nanos / 1_000_000 > u64::MAX,
        },
{
    let millis: u64 = (subsec_nanos / 1_000_000) as u64;
    secs.checked_add(millis)
}

} // verus!
