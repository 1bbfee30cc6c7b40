//! Level discovery: the hard-coded base list, the archive-entry path
//! pattern that names a level, and the deduplicating append that folds
//! discovered names into the list.
//!
//! Reading the archive directory itself is the caller's job; it hands the
//! entry paths in as plain text.

use vstd::prelude::*;
use vstd::string::*;
use crate::codec::{starts_with_vec, str_chars, string_from_chars};

verus! {

/// The two-segment prefix that marks a level directory, `levels/`.
pub open spec fn lit_levels_prefix() -> Seq<char> {
    seq!['l', 'e', 'v', 'e', 'l', 's', '/']
}

/// The level named by an archive directory entry: exactly the paths of
/// the form `levels/<name>/` with `<name>` non-empty and free of slashes
/// name a level, and they name `<name>`.
pub open spec fn level_dir(path: Seq<char>) -> Option<Seq<char>> {
    if path.len() >= 9 && path.subrange(0, 7) == lit_levels_prefix() && path.last() == '/' && (
    forall|k: int| 7 <= k < path.len() - 1 ==> path[k] != '/') {
        Some(path.subrange(7, path.len() - 1))
    } else {
        None
    }
}

/// Extracts the level name an archive directory entry carries, if any.
pub fn level_dir_name(path: &str) -> (r: Option<String>)
    ensures
        match r {
            Some(name) => level_dir(path@) == Some(name@),
            None => level_dir(path@) is None,
        },
{
    let v = str_chars(path);
    if v.len() < 9 {
        return None;
    }
    let mut prefix: Vec<char> = Vec::new();
    prefix.push('l');
    prefix.push('e');
    prefix.push('v');
    prefix.push('e');
    prefix.push('l');
    prefix.push('s');
    prefix.push('/');
    assert(prefix@ =~= lit_levels_prefix());
    if !starts_with_vec(&v, &prefix, 0) {
        return None;
    }
    let end = v.len() - 1;
    if v[end] != '/' {
        return None;
    }
    let mut name: Vec<char> = Vec::new();
    let mut k: usize = 7;
    while k < end
        invariant
            7 <= k <= end,
            end == v@.len() - 1,
            v@ == path@,
            name@ =~= v@.subrange(7, k as int),
            forall|j: int| 7 <= j < k ==> v@[j] != '/',
        decreases end - k,
    {
        if v[k] == '/' {
            return None;
        }
        name.push(v[k]);
        k += 1;
        assert(name@ =~= v@.subrange(7, k as int));
    }
    proof {
        assert(path@.subrange(0, 7) == lit_levels_prefix());
        assert(name@ =~= path@.subrange(7, path@.len() - 1));
    }
    Some(string_from_chars(name))
}

/// One discovered name folded into the list: appended if new, dropped if
/// already present.
pub open spec fn add_level(acc: Seq<Seq<char>>, name: Seq<char>) -> Seq<Seq<char>> {
    if acc.contains(name) {
        acc
    } else {
        acc.push(name)
    }
}

/// A batch of archive entry paths folded into the list, in order: each
/// entry that names a level contributes that name once.
pub open spec fn collect_spec(acc: Seq<Seq<char>>, entries: Seq<Seq<char>>) -> Seq<Seq<char>>
    decreases entries.len(),
{
    if entries.len() == 0 {
        acc
    } else {
        collect_spec(
            match level_dir(entries[0]) {
                Some(name) => add_level(acc, name),
                None => acc,
            },
            entries.skip(1),
        )
    }
}

/// Folding discovered names into a duplicate-free list keeps it
/// duplicate-free: the level list never holds a name twice.
pub proof fn lemma_collect_distinct(acc: Seq<Seq<char>>, entries: Seq<Seq<char>>)
    requires
        forall|i: int, j: int| 0 <= i < j < acc.len() ==> acc[i] != acc[j],
    ensures
        forall|i: int, j: int|
            0 <= i < j < collect_spec(acc, entries).len() ==> collect_spec(acc, entries)[i]
                != collect_spec(acc, entries)[j],
    decreases entries.len(),
{
    if entries.len() == 0 {
    } else {
        let next = match level_dir(entries[0]) {
            Some(name) => add_level(acc, name),
            None => acc,
        };
        assert(collect_spec(acc, entries) == collect_spec(next, entries.skip(1)));
        assert forall|i: int, j: int| 0 <= i < j < next.len() implies next[i] != next[j] by {
            if next.len() == acc.len() + 1 {
                if j == next.len() - 1 {
                    assert(!acc.contains(next[j]));
                    assert(acc[i] == next[i]);
                }
            }
        }
        lemma_collect_distinct(next, entries.skip(1));
    }
}

/// A name stands somewhere in the list.
fn contains_level(v: &Vec<String>, name: &String) -> (r: bool)
    ensures
        r == v.deep_view().contains(name@),
{
    let mut i: usize = 0;
    while i < v.len()
        invariant
            i <= v@.len(),
            forall|k: int| 0 <= k < i ==> v.deep_view()[k] != name@,
        decreases v@.len() - i,
    {
        let xi: &String = &v[i];
        if xi.eq(name) {
            assert(v.deep_view()[i as int] == name@);
            return true;
        }
        i += 1;
    }
    false
}

/// The hard-coded base list of levels every server knows about.
pub open spec fn base_level_names() -> Seq<Seq<char>> {
    seq![
        "gridmap_v2"@,
        "johnson_valley"@,
        "automation_test_track"@,
        "east_coast_usa"@,
        "hirochi_raceway"@,
        "italy"@,
        "jungle_rock_island"@,
        "industrial"@,
        "small_island"@,
        "smallgrid"@,
        "utah"@,
        "west_coast_usa"@,
        "driver_training"@,
        "derby"@,
    ]
}

/// The base level list, in its fixed order.
pub fn base_levels() -> (r: Vec<String>)
    ensures
        r.deep_view() == base_level_names(),
{
    let mut out: Vec<String> = Vec::new();
    out.push(String::from_str("gridmap_v2"));
    out.push(String::from_str("johnson_valley"));
    out.push(String::from_str("automation_test_track"));
    out.push(String::from_str("east_coast_usa"));
    out.push(String::from_str("hirochi_raceway"));
    out.push(String::from_str("italy"));
    out.push(String::from_str("jungle_rock_island"));
    out.push(String::from_str("industrial"));
    out.push(String::from_str("small_island"));
    out.push(String::from_str("smallgrid"));
    out.push(String::from_str("utah"));
    out.push(String::from_str("west_coast_usa"));
    out.push(String::from_str("driver_training"));
    out.push(String::from_str("derby"));
    proof {
        assert(out.deep_view() =~= base_level_names());
    }
    out
}

/// Folds a batch of archive entry paths into the level list: each entry
/// of the form `levels/<name>/` appends `<name>` unless it is already
/// present. Order of first discovery is kept.
pub fn collect_levels(base: Vec<String>, entries: &Vec<String>) -> (r: Vec<String>)
    ensures
        r.deep_view() == collect_spec(base.deep_view(), entries.deep_view()),
{
    let ghost base_dv = base.deep_view();
    let ghost entries_dv = entries.deep_view();
    let mut acc = base;
    let n = entries.len();
    let mut i: usize = 0;
    proof {
        assert(entries_dv.skip(0) =~= entries_dv);
    }
    while i < n
        invariant
            i <= n,
            n == entries@.len(),
            entries_dv == entries.deep_view(),
            entries_dv.len() == n,
            collect_spec(base_dv, entries_dv) == collect_spec(
                acc.deep_view(),
                entries_dv.skip(i as int),
            ),
        decreases n - i,
    {
        proof {
            assert(entries_dv.skip(i as int)[0] == entries_dv[i as int]);
            assert(entries_dv.skip(i as int).skip(1) =~= entries_dv.skip(i as int + 1));
        }
        match level_dir_name(entries[i].as_str()) {
            Some(name) => {
                if !contains_level(&acc, &name) {
                    let ghost prev = acc.deep_view();
                    let ghost namev = name@;
                    acc.push(name);
                    proof {
                        assert(acc.deep_view() =~= prev.push(namev));
                    }
                }
            },
            None => {},
        }
        i += 1;
    }
    proof {
        assert(entries_dv.skip(n as int) =~= Seq::<Seq<char>>::empty());
    }
    acc
}

} // verus!
