//! `/reload`.

use vstd::prelude::*;
use crate::text::string_eq_str;
use crate::search::{embeds, subsequence};

verus! {

#[derive(Debug, Clone, PartialEq, Eq)]
pub struct ReloadCommandOutput {
    pub success_count: i32,
    pub feedback_key: &'static str,
    pub broadcast_to_admins: bool,
    pub selected_packs: Vec<String>,
}

pub open spec fn names(v: Seq<String>) -> Seq<Seq<char>> {
    v.map_values(|s: String| s@)
}

/// The packs selected after a reload: the current selection, then each
/// available pack, in order, that is neither disabled nor selected yet.
pub open spec fn discovered(available: Seq<Seq<char>>, current: Seq<Seq<char>>, disabled: Seq<Seq<char>>) -> Seq<Seq<char>>
    decreases available.len(),
{
    if available.len() == 0 {
        current
    } else {
        let prev = discovered(available.drop_last(), current, disabled);
        let pack = available.last();
        if !disabled.contains(pack) && !prev.contains(pack) {
            prev.push(pack)
        } else {
            prev
        }
    }
}

proof fn lemma_discovered_parts(available: Seq<Seq<char>>, current: Seq<Seq<char>>, disabled: Seq<Seq<char>>) -> (idx: Seq<int>)
    ensures
        ({
            let d = discovered(available, current, disabled);
            let n = current.len() as int;
            &&& d.len() >= n
            &&& d.subrange(0, n) == current
            &&& embeds(d.subrange(n, d.len() as int), available, idx)
            &&& forall|i: int| n <= i < d.len() ==> !disabled.contains(#[trigger] d[i]) && !current.contains(d[i])
            &&& forall|i: int, j: int| n <= i < j < d.len() ==> #[trigger] d[i] != #[trigger] d[j]
            &&& forall|k: int| 0 <= k < available.len() && !disabled.contains(#[trigger] available[k]) ==> d.contains(available[k])
        }),
    decreases available.len(),
{
    let n = current.len() as int;
    if available.len() == 0 {
        assert(current.subrange(0, n) =~= current);
        assert(current.subrange(n, n) =~= Seq::<Seq<char>>::empty());
        seq![]
    } else {
        let front = available.drop_last();
        let prev = discovered(front, current, disabled);
        let pidx = lemma_discovered_parts(front, current, disabled);
        let pack = available.last();
        let d = discovered(available, current, disabled);
        let ptail = prev.subrange(n, prev.len() as int);
        assert forall|i: int| 0 <= i < pidx.len() implies 0 <= #[trigger] pidx[i] < available.len()
            && available[pidx[i]] == ptail[i] by {
            assert(available[pidx[i]] == front[pidx[i]]);
        }
        if !disabled.contains(pack) && !prev.contains(pack) {
            let idx = pidx.push(available.len() - 1);
            assert(d == prev.push(pack));
            assert(d.subrange(0, n) =~= prev.subrange(0, n));
            assert(d.subrange(n, d.len() as int) =~= ptail.push(pack));
            assert forall|i: int, j: int| 0 <= i < j < idx.len() implies #[trigger] idx[i] < #[trigger] idx[j] by {
                if j < pidx.len() {
                    assert(idx[i] == pidx[i] && idx[j] == pidx[j]);
                } else {
                    assert(idx[i] == pidx[i]);
                    assert(pidx[i] < front.len());
                }
            }
            assert(!current.contains(pack)) by {
                if current.contains(pack) {
                    let k = choose|k: int| 0 <= k < current.len() && current[k] == pack;
                    assert(prev[k] == prev.subrange(0, n)[k]);
                }
            }
            assert forall|i: int| n <= i < d.len() implies !disabled.contains(#[trigger] d[i]) && !current.contains(d[i]) by {
                if i < prev.len() {
                    assert(d[i] == prev[i]);
                }
            }
            assert forall|i: int, j: int| n <= i < j < d.len() implies #[trigger] d[i] != #[trigger] d[j] by {
                if j < prev.len() {
                    assert(d[i] == prev[i] && d[j] == prev[j]);
                } else {
                    assert(d[i] == prev[i]);
                }
            }
            assert forall|k: int| 0 <= k < available.len() && !disabled.contains(#[trigger] available[k]) implies d.contains(available[k]) by {
                if k < front.len() {
                    assert(front[k] == available[k]);
                    let m = choose|m: int| 0 <= m < prev.len() && prev[m] == available[k];
                    assert(d[m] == prev[m]);
                } else {
                    assert(d[prev.len() as int] == pack);
                }
            }
            idx
        } else {
            assert(d == prev);
            assert forall|k: int| 0 <= k < available.len() && !disabled.contains(#[trigger] available[k]) implies d.contains(available[k]) by {
                if k < front.len() {
                    assert(front[k] == available[k]);
                }
            }
            pidx
        }
    }
}

/// After a reload the selection is the current selection, then the packs
/// it did not hold that are available and not disabled, each once, in the
/// order they are available; so every available pack that is not disabled
/// is selected.
pub proof fn lemma_reload_keeps_current_and_adds_new_packs(available: Seq<Seq<char>>, current: Seq<Seq<char>>, disabled: Seq<Seq<char>>)
    ensures
        ({
            let d = discovered(available, current, disabled);
            let n = current.len() as int;
            &&& d.len() >= n
            &&& d.subrange(0, n) == current
            &&& subsequence(d.subrange(n, d.len() as int), available)
            &&& forall|i: int| n <= i < d.len() ==> !disabled.contains(#[trigger] d[i]) && !current.contains(d[i])
            &&& forall|i: int, j: int| n <= i < j < d.len() ==> #[trigger] d[i] != #[trigger] d[j]
            &&& forall|k: int| 0 <= k < available.len() && !disabled.contains(#[trigger] available[k]) ==> d.contains(available[k])
        }),
{
    let d = discovered(available, current, disabled);
    let idx = lemma_discovered_parts(available, current, disabled);
    assert(embeds(d.subrange(current.len() as int, d.len() as int), available, idx));
}

fn contains_name(v: &Vec<String>, s: &String) -> (r: bool)
    ensures
        r == names(v@).contains(s@),
{
    let mut i: usize = 0;
    while i < v.len()
        invariant
            0 <= i <= v@.len(),
            forall|k: int| 0 <= k < i ==> v@[k]@ != s@,
        decreases v@.len() - i,
    {
        if string_eq_str(&v[i], s.as_str()) {
            assert(names(v@)[i as int] == s@);
            return true;
        }
        i = i + 1;
    }
    proof {
        if names(v@).contains(s@) {
            let k = choose|k: int| 0 <= k < names(v@).len() && names(v@)[k] == s@;
            assert(v@[k]@ == s@);
        }
    }
    false
}

fn slice_contains_name(v: &[String], s: &String) -> (r: bool)
    ensures
        r == names(v@).contains(s@),
{
    let mut i: usize = 0;
    while i < v.len()
        invariant
            0 <= i <= v@.len(),
            forall|k: int| 0 <= k < i ==> v@[k]@ != s@,
        decreases v@.len() - i,
    {
        if string_eq_str(&v[i], s.as_str()) {
            assert(names(v@)[i as int] == s@);
            return true;
        }
        i = i + 1;
    }
    proof {
        if names(v@).contains(s@) {
            let k = choose|k: int| 0 <= k < names(v@).len() && names(v@)[k] == s@;
            assert(v@[k]@ == s@);
        }
    }
    false
}

pub fn discover_new_packs(available_packs: &[String], current_packs: &[String], disabled_packs: &[String]) -> (r: Vec<String>)
    ensures
        names(r@) == discovered(names(available_packs@), names(current_packs@), names(disabled_packs@)),
{
    let mut selected: Vec<String> = Vec::new();
    let mut j: usize = 0;
    while j < current_packs.len()
        invariant
            0 <= j <= current_packs@.len(),
            selected@.len() == j,
            forall|k: int| 0 <= k < j ==> #[trigger] selected@[k]@ == current_packs@[k]@,
        decreases current_packs@.len() - j,
    {
        let c = current_packs[j].clone();
        selected.push(c);
        j = j + 1;
    }
    assert(names(selected@) =~= names(current_packs@));
    let ghost av = names(available_packs@);
    let mut i: usize = 0;
    while i < available_packs.len()
        invariant
            0 <= i <= available_packs@.len(),
            av == names(available_packs@),
            names(selected@) == discovered(av.subrange(0, i as int), names(current_packs@), names(disabled_packs@)),
        decreases available_packs@.len() - i,
    {
        let pack = &available_packs[i];
        assert(av.subrange(0, i + 1).drop_last() =~= av.subrange(0, i as int));
        if !slice_contains_name(disabled_packs, pack) && !contains_name(&selected, pack) {
            selected.push(pack.clone());
            assert(names(selected@) =~= discovered(av.subrange(0, i as int), names(current_packs@), names(disabled_packs@)).push(pack@));
        }
        i = i + 1;
    }
    assert(av.subrange(0, av.len() as int) =~= av);
    selected
}

pub fn execute_reload_command(available_packs: &[String], current_packs: &[String], disabled_packs: &[String]) -> (r: ReloadCommandOutput)
    ensures
        r.success_count == 0,
        r.feedback_key@ == "commands.reload.success"@,
        r.broadcast_to_admins,
        names(r.selected_packs@) == discovered(names(available_packs@), names(current_packs@), names(disabled_packs@)),
{
    ReloadCommandOutput {
        success_count: 0,
        feedback_key: "commands.reload.success",
        broadcast_to_admins: true,
        selected_packs: discover_new_packs(available_packs, current_packs, disabled_packs),
    }
}

} // verus!
