//! The catalog: recordings and presets, each carrying six adjustable control
//! values (five band gains and a pan), identified by name.

use vstd::prelude::*;
use vstd::multiset::Multiset;
use crate::errors::Error;
use crate::snapshot::{seeded, store_unchanged, SnapShot, SnapshotStore};
use crate::text::{contains_seq, contains_substr, str_eq};

verus! {

/// The first index at which the list holds a recording of the given name,
/// or -1 when none does.
pub open spec fn find_recording(list: Seq<Recording>, name: Seq<char>) -> int
    decreases list.len(),
{
    if list.len() == 0 {
        -1
    } else if list[0].name@ == name {
        0
    } else {
        let rest = find_recording(list.drop_first(), name);
        if rest == -1 {
            -1
        } else {
            rest + 1
        }
    }
}

/// Whether the list holds a recording of the given name.
pub open spec fn has_recording(list: Seq<Recording>, name: Seq<char>) -> bool {
    exists|i: int| 0 <= i < list.len() && list[i].name@ == name
}

/// `find_recording` returns -1 exactly when no entry holds the name, and
/// otherwise the first index that holds it.
pub proof fn lemma_find_recording(list: Seq<Recording>, name: Seq<char>)
    ensures
        find_recording(list, name) == -1 || (0 <= find_recording(list, name) < list.len()
            && list[find_recording(list, name)].name@ == name),
        find_recording(list, name) == -1 <==> !has_recording(list, name),
        forall|i: int| 0 <= i < find_recording(list, name) ==> list[i].name@ != name,
    decreases list.len(),
{
    if list.len() > 0 && list[0].name@ != name {
        lemma_find_recording(list.drop_first(), name);
        assert forall|i: int| 1 <= i < list.len() implies list.drop_first()[i - 1] == list[i] by {}
        if has_recording(list, name) {
            let w = choose|i: int| 0 <= i < list.len() && list[i].name@ == name;
            assert(list.drop_first()[w - 1].name@ == name);
        }
    }
}

/// `find_recording` lands on any index that holds the name and has no
/// earlier index holding it.
pub proof fn lemma_find_recording_at(list: Seq<Recording>, name: Seq<char>, at: int)
    requires
        0 <= at < list.len(),
        list[at].name@ == name,
        forall|i: int| 0 <= i < at ==> list[i].name@ != name,
    ensures
        find_recording(list, name) == at,
    decreases list.len(),
{
    if at > 0 {
        assert forall|i: int| 0 <= i < at - 1 implies list.drop_first()[i].name@ != name by {
            assert(list.drop_first()[i] == list[i + 1]);
        }
        assert(list.drop_first()[at - 1] == list[at]);
        lemma_find_recording_at(list.drop_first(), name, at - 1);
    }
}

/// Six zeroed control values: the controls of a freshly created recording.
pub open spec fn zero_controls() -> Seq<i32> {
    seq![0i32, 0i32, 0i32, 0i32, 0i32, 0i32]
}

/// The controls a rebuilt catalog entry of the given name carries: those of
/// the first old entry of the same name, or zeroes when the name is new.
pub open spec fn carried_controls(old_list: Seq<Recording>, name: Seq<char>) -> Seq<i32> {
    if has_recording(old_list, name) {
        old_list[find_recording(old_list, name)].controls()
    } else {
        zero_controls()
    }
}

/// Whether the list of names holds the given name.
pub open spec fn has_name(names: Seq<String>, name: Seq<char>) -> bool {
    exists|i: int| 0 <= i < names.len() && names[i]@ == name
}

/// Whether the names in the list are pairwise different, as the base names
/// found in one directory are.
pub open spec fn distinct_names(names: Seq<String>) -> bool {
    forall|i: int, j: int| 0 <= i < j < names.len() ==> names[i]@ != names[j]@
}

/// Whether a pending snapshot exists for the name, once the reserved
/// settings entry is filtered out of the snapshot list.
pub open spec fn pending_snapshot(snapshot_names: Seq<String>, name: Seq<char>) -> bool {
    has_name(snapshot_names, name) && name != "settings"@
}

/// Removing the entry at index `k` from a list of pairwise different names
/// removes exactly that name.
proof fn lemma_remove_name(before: Seq<String>, k: int)
    requires
        distinct_names(before),
        0 <= k < before.len(),
    ensures
        distinct_names(before.remove(k)),
        !has_name(before.remove(k), before[k]@),
        forall|n: Seq<char>|
            n != before[k]@ ==> (has_name(before.remove(k), n) <==> has_name(before, n)),
{
    before.remove_ensures(k);
    let after = before.remove(k);
    assert forall|i: int, j: int| 0 <= i < j < after.len() implies after[i]@ != after[j]@ by {
        assert(after[i] == (if i < k {
            before[i]
        } else {
            before[i + 1]
        }));
        assert(after[j] == (if j < k {
            before[j]
        } else {
            before[j + 1]
        }));
    }
    assert forall|i: int| 0 <= i < after.len() implies after[i]@ != before[k]@ by {
        assert(after[i] == (if i < k {
            before[i]
        } else {
            before[i + 1]
        }));
    }
    assert forall|n: Seq<char>| n != before[k]@ implies (has_name(after, n) <==> has_name(
        before,
        n,
    )) by {
        if has_name(after, n) {
            let w = choose|i: int| 0 <= i < after.len() && after[i]@ == n;
            assert(after[w] == (if w < k {
                before[w]
            } else {
                before[w + 1]
            }));
        }
        if has_name(before, n) {
            let w = choose|i: int| 0 <= i < before.len() && before[i]@ == n;
            assert(w != k);
            if w < k {
                assert(after[w]@ == n);
            } else {
                assert(after[w - 1]@ == n);
            }
        }
    }
}

/// Reconciliation is idempotent: reconciling the catalog a second time
/// against the same clip names, with no change on disk in between, yields
/// entry for entry the same names and the same controls as the first run —
/// nothing is duplicated and nothing is dropped.
pub proof fn lemma_sync_idempotent(
    earlier: Seq<Recording>,
    files: Seq<String>,
    once: Seq<Recording>,
    twice: Seq<Recording>,
)
    requires
        distinct_names(files),
        once.len() == files.len(),
        forall|i: int| 0 <= i < files.len() ==> once[i].name@ == files[i]@,
        forall|i: int|
            0 <= i < files.len() ==> once[i].controls() == carried_controls(earlier, files[i]@),
        twice.len() == files.len(),
        forall|i: int| 0 <= i < files.len() ==> twice[i].name@ == files[i]@,
        forall|i: int|
            0 <= i < files.len() ==> twice[i].controls() == carried_controls(once, files[i]@),
    ensures
        forall|i: int| 0 <= i < files.len() ==> twice[i].name@ == once[i].name@,
        forall|i: int| 0 <= i < files.len() ==> twice[i].controls() == once[i].controls(),
{
    assert forall|i: int| 0 <= i < files.len() implies twice[i].controls()
        == once[i].controls() by {
        assert(once[i].name@ == files[i]@);
        assert(has_recording(once, files[i]@));
        lemma_find_recording(once, files[i]@);
        let fj = find_recording(once, files[i]@);
        assert(0 <= fj < once.len() && once[fj].name@ == files[i]@);
        assert(files[fj]@ == files[i]@);
        if fj < i {
            assert(files[fj]@ != files[i]@);
        } else if fj > i {
            assert(files[i]@ != files[fj]@);
        }
        assert(fj == i);
    }
}

/// The validation the rename of one catalog entry must pass: an unchanged
/// name is always accepted; a changed name is rejected when it holds the
/// fallback marker, is the reserved settings name, is empty, or is already
/// the name of a recording, in that order of checks.
pub open spec fn check_new_name(
    old_list: Seq<Recording>,
    name: Seq<char>,
    newname: Seq<char>,
) -> Option<Error> {
    if newname == name {
        None
    } else if contains_seq(newname, "Default taken..."@) {
        Some(Error::FallbackError)
    } else if newname == "settings"@ {
        Some(Error::SaveFileRenameError)
    } else if newname.len() == 0 {
        Some(Error::EmptyError)
    } else if has_recording(old_list, newname) {
        Some(Error::ExistsError)
    } else {
        None
    }
}

/// The first index whose new name fails validation, from `from` on, or -1
/// when every entry passes.
pub open spec fn first_invalid(old_list: Seq<Recording>, new_names: Seq<String>, from: int) -> int
    decreases old_list.len() - from when 0 <= from <= old_list.len()
{
    if from >= old_list.len() {
        -1
    } else if check_new_name(old_list, old_list[from].name@, new_names[from]@) is Some {
        from
    } else {
        first_invalid(old_list, new_names, from + 1)
    }
}

/// `first_invalid` lands on the first failing index, or on -1 when every
/// index up to the end passes.
proof fn lemma_first_invalid_range(
    old_list: Seq<Recording>,
    new_names: Seq<String>,
    from: int,
    at: int,
)
    requires
        0 <= from <= at <= old_list.len(),
        forall|i: int|
            from <= i < at ==> check_new_name(old_list, old_list[i].name@, new_names[i]@) is None,
        at < old_list.len() ==> check_new_name(
            old_list,
            old_list[at].name@,
            new_names[at]@,
        ) is Some,
    ensures
        at < old_list.len() ==> first_invalid(old_list, new_names, from) == at,
        at == old_list.len() ==> first_invalid(old_list, new_names, from) == -1,
    decreases at - from,
{
    if from < at {
        lemma_first_invalid_range(old_list, new_names, from + 1, at);
    }
}

/// The name a batch rename leaves on the entry at index `i`: its accepted
/// new name, or its old name when the new one is rejected.
pub open spec fn renamed_name(old_list: Seq<Recording>, new_names: Seq<String>, i: int) -> Seq<
    char,
> {
    if check_new_name(old_list, old_list[i].name@, new_names[i]@) is None {
        new_names[i]@
    } else {
        old_list[i].name@
    }
}

/// The disk renames a batch rename calls for: one (old name, new name) pair
/// for each entry before `upto` whose new name was accepted and differs
/// from its old one.
pub open spec fn rename_pairs(
    old_list: Seq<Recording>,
    new_names: Seq<String>,
    upto: int,
) -> Seq<(Seq<char>, Seq<char>)>
    decreases upto,
{
    if upto <= 0 {
        Seq::empty()
    } else {
        let p = rename_pairs(old_list, new_names, upto - 1);
        if check_new_name(old_list, old_list[upto - 1].name@, new_names[upto - 1]@) is None
            && new_names[upto - 1]@ != old_list[upto - 1].name@ {
            p.push((old_list[upto - 1].name@, new_names[upto - 1]@))
        } else {
            p
        }
    }
}

/// Whether a list of name pairs holds, pair for pair, the given pairs of
/// character sequences.
pub open spec fn pairs_match(
    pending: Seq<(String, String)>,
    pairs: Seq<(Seq<char>, Seq<char>)>,
) -> bool {
    &&& pending.len() == pairs.len()
    &&& forall|k: int|
        0 <= k < pairs.len() ==> pending[k].0@ == pairs[k].0 && pending[k].1@ == pairs[k].1
}

/// The outcome a batch rename hands back to the caller: the rebuilt entry
/// list, and the disk renames the caller must apply — each pair naming the
/// clip and snapshot files to move from the old base name to the new one.
pub struct RenamePlan {
    pub recordings: Vec<Recording>,
    pub pending: Vec<(String, String)>,
}

/// Index data of the two catalog lists.
pub struct IndexData {
    pub preset_length: usize,
    pub recording_length: usize,
}

/// A saved dial configuration, independent of any recording.
#[derive(Clone)]
pub struct Preset {
    pub name: String,
    pub sub_bass: i32,
    pub bass: i32,
    pub low_mids: i32,
    pub high_mids: i32,
    pub treble: i32,
    pub pan: i32,
}

/// One clip in the catalog: its display name, which is also the base name of
/// its backing files, and its six control values.
#[derive(Clone)]
pub struct Recording {
    pub name: String,
    pub sub_bass: i32,
    pub bass: i32,
    pub low_mids: i32,
    pub high_mids: i32,
    pub treble: i32,
    pub pan: i32,
}

/// The whole persisted catalog.
#[derive(Clone)]
pub struct Settings {
    pub presets: Vec<Preset>,
    pub recordings: Vec<Recording>,
}

/// The name the control layer supplies for the preset at the given index,
/// or the default preset name when it supplies none.
pub open spec fn preset_name_of(names: Seq<String>, i: int) -> Seq<char> {
    if 0 <= i < names.len() {
        names[i]@
    } else {
        "New Preset"@
    }
}

impl Preset {
    /// The six control values as one sequence, in dial order.
    pub open spec fn controls(self) -> Seq<i32> {
        seq![self.sub_bass, self.bass, self.low_mids, self.high_mids, self.treble, self.pan]
    }

    /// A preset made from the current dial values, under the default name.
    pub fn from(values: [i32; 6]) -> (r: Preset)
        ensures
            r.name@ == "New Preset"@,
            r.controls() == values@,
    {
        let r = Preset {
            name: String::from_str("New Preset"),
            sub_bass: values[0],
            bass: values[1],
            low_mids: values[2],
            high_mids: values[3],
            treble: values[4],
            pan: values[5],
        };
        proof {
            assert(r.controls() =~= values@);
        }
        r
    }

    /// The names of the first `length` presets, in order.
    pub fn send_names(list: &Vec<Preset>, length: &usize) -> (r: Vec<String>)
        requires
            *length <= list@.len(),
        ensures
            r@.len() == *length,
            forall|i: int| 0 <= i < *length ==> r@[i]@ == list@[i].name@,
    {
        let mut preset_names: Vec<String> = Vec::new();
        let mut preset: usize = 0;
        while preset < *length
            invariant
                preset <= *length <= list@.len(),
                preset_names@.len() == preset,
                forall|i: int| 0 <= i < preset ==> preset_names@[i]@ == list@[i].name@,
            decreases *length - preset,
        {
            preset_names.push(list[preset].name.clone());
            preset += 1;
        }
        preset_names
    }

    /// The control values of the first `length` presets, one row each, in
    /// dial order.
    pub fn send_values(list: &Vec<Preset>, length: &usize) -> (r: Vec<Vec<i32>>)
        requires
            *length <= list@.len(),
        ensures
            r@.len() == *length,
            forall|i: int| 0 <= i < *length ==> r@[i]@ == list@[i].controls(),
    {
        let mut all_preset_values: Vec<Vec<i32>> = Vec::new();
        let mut values: usize = 0;
        while values < *length
            invariant
                values <= *length <= list@.len(),
                all_preset_values@.len() == values,
                forall|i: int| 0 <= i < values ==> all_preset_values@[i]@ == list@[i].controls(),
            decreases *length - values,
        {
            let mut preset_values: Vec<i32> = Vec::new();
            preset_values.push(list[values].sub_bass);
            preset_values.push(list[values].bass);
            preset_values.push(list[values].low_mids);
            preset_values.push(list[values].high_mids);
            preset_values.push(list[values].treble);
            preset_values.push(list[values].pan);
            proof {
                assert(preset_values@ =~= list@[values as int].controls());
            }
            all_preset_values.push(preset_values);
            values += 1;
        }
        all_preset_values
    }
}

impl Recording {
    /// The six control values as one sequence, in dial order.
    pub open spec fn controls(self) -> Seq<i32> {
        seq![self.sub_bass, self.bass, self.low_mids, self.high_mids, self.treble, self.pan]
    }

    /// A fresh recording under the given name, with every control zeroed.
    pub fn new(name: &String) -> (r: Recording)
        ensures
            r.name@ == name@,
            r.controls() == seq![0i32, 0i32, 0i32, 0i32, 0i32, 0i32],
    {
        Recording {
            name: name.clone(),
            sub_bass: 0,
            bass: 0,
            low_mids: 0,
            high_mids: 0,
            treble: 0,
            pan: 0,
        }
    }

    /// A recording under the given name carrying the given dial values.
    pub fn from(name: &String, values: [i32; 6]) -> (r: Recording)
        ensures
            r.name@ == name@,
            r.controls() == values@,
    {
        let r = Recording {
            name: name.clone(),
            sub_bass: values[0],
            bass: values[1],
            low_mids: values[2],
            high_mids: values[3],
            treble: values[4],
            pan: values[5],
        };
        proof {
            assert(r.controls() =~= values@);
        }
        r
    }

    /// This recording's control values as dial values.
    pub fn parse(&self) -> (r: [i32; 6])
        ensures
            r@ == self.controls(),
    {
        let r = [self.sub_bass, self.bass, self.low_mids, self.high_mids, self.treble, self.pan];
        proof {
            assert(r@ =~= self.controls());
        }
        r
    }

    /// This recording's control values as a list.
    pub fn parse_vec_from_recording(&self) -> (r: Vec<i32>)
        ensures
            r@ == self.controls(),
    {
        let mut list: Vec<i32> = Vec::new();
        list.push(self.sub_bass);
        list.push(self.bass);
        list.push(self.low_mids);
        list.push(self.high_mids);
        list.push(self.treble);
        list.push(self.pan);
        proof {
            assert(list@ =~= self.controls());
        }
        list
    }

    /// Dial values as a list.
    pub fn parse_vec_from_list(list: [i32; 6]) -> (r: Vec<i32>)
        ensures
            r@ == list@,
    {
        let mut new_list: Vec<i32> = Vec::new();
        new_list.push(list[0]);
        new_list.push(list[1]);
        new_list.push(list[2]);
        new_list.push(list[3]);
        new_list.push(list[4]);
        new_list.push(list[5]);
        proof {
            assert(new_list@ =~= list@);
        }
        new_list
    }

    /// A random playback order over `length` recordings: a permutation of
    /// the indices 0 to `length`-1. At least three recordings are required
    /// before the control layer offers shuffling; the permutation itself is
    /// defined for any length.
    pub fn shuffle(length: usize) -> (new: Vec<i32>)
        requires
            length <= i32::MAX,
        ensures
            new@.len() == length,
            new@.to_multiset() == Seq::new(length as nat, |i: int| i as i32).to_multiset(),
    {
        let ghost full = Seq::new(length as nat, |i: int| i as i32);
        let mut new: Vec<i32> = Vec::new();
        let mut avaliable: Vec<i32> = Vec::new();
        let mut number: usize = 0;
        while number < length
            invariant
                full == Seq::new(length as nat, |i: int| i as i32),
                number <= length <= i32::MAX,
                avaliable@ == full.take(number as int),
            decreases length - number,
        {
            avaliable.push(number as i32);
            proof {
                assert(full[number as int] == number as i32);
                assert(avaliable@ =~= full.take(number + 1));
            }
            number += 1;
        }
        proof {
            broadcast use vstd::seq_lib::group_to_multiset_ensures;

            assert(avaliable@ =~= full);
            assert(new@.to_multiset() =~= Multiset::<i32>::empty());
            assert(new@.to_multiset().add(avaliable@.to_multiset()) =~= full.to_multiset());
        }
        let mut round: usize = 0;
        while round < length
            invariant
                full == Seq::new(length as nat, |i: int| i as i32),
                round <= length,
                new@.len() == round,
                avaliable@.len() == length - round,
                new@.to_multiset().add(avaliable@.to_multiset()) == full.to_multiset(),
            decreases length - round,
        {
            let ghost prev_new = new@;
            let ghost prev_av = avaliable@;
            let random = crate::rng::random_below(avaliable.len());
            let picked = avaliable[random];
            new.push(picked);
            let _ = avaliable.remove(random);
            proof {
                broadcast use vstd::seq_lib::group_to_multiset_ensures;

                assert(prev_av.contains(picked));
                assert(prev_av.to_multiset().contains(picked));
                assert(new@.to_multiset() == prev_new.to_multiset().insert(picked));
                assert(avaliable@.to_multiset() == prev_av.to_multiset().remove(picked));
                assert(new@.to_multiset().add(avaliable@.to_multiset()) =~= full.to_multiset());
            }
            round += 1;
        }
        proof {
            broadcast use vstd::seq_lib::group_to_multiset_ensures;

            assert(avaliable@ =~= Seq::<i32>::empty());
            assert(avaliable@.to_multiset() =~= Multiset::<i32>::empty());
            assert(new@.to_multiset() =~= full.to_multiset());
        }
        new
    }

    /// Validates and applies a batch rename of the whole recording list.
    /// Every entry is validated independently: an unchanged name is always
    /// carried over, and a changed name must pass validation — it may not
    /// hold the fallback marker, be the reserved settings name, be empty,
    /// or already name a recording. A rejected entry keeps its old name and
    /// backing files while the other entries of the batch still succeed or
    /// fail individually, so the returned list always has one entry per
    /// recording; the specific error of the first rejection is returned
    /// beside it. The accepted changes are also handed back as (old name,
    /// new name) pairs; the caller applies those to the clip and snapshot
    /// files and reports any disk failure itself.
    pub fn rename(old: &Vec<Recording>, new: &Vec<String>) -> (r: Result<
        RenamePlan,
        (RenamePlan, Error),
    >)
        requires
            new@.len() >= old@.len(),
        ensures
            ({
                let fi = first_invalid(old@, new@, 0);
                let plan = match r {
                    Ok(plan) => plan,
                    Err((plan, _)) => plan,
                };
                &&& (r is Ok <==> fi == -1)
                &&& plan.recordings@.len() == old@.len()
                &&& forall|i: int|
                    0 <= i < old@.len() ==> plan.recordings@[i].name@ == renamed_name(
                        old@,
                        new@,
                        i,
                    )
                &&& forall|i: int|
                    0 <= i < old@.len() ==> plan.recordings@[i].controls() == old@[i].controls()
                &&& pairs_match(plan.pending@, rename_pairs(old@, new@, old@.len() as int))
                &&& (r matches Err((_, e)) ==> 0 <= fi < old@.len() && Some(e) == check_new_name(
                    old@,
                    old@[fi].name@,
                    new@[fi]@,
                ))
            }),
    {
        let mut recording_list: Vec<Recording> = Vec::new();
        let mut pendings: Vec<(String, String)> = Vec::new();
        let mut failure: Option<Error> = None;
        let ghost mut first_bad: int = 0;
        let mut name: usize = 0;
        while name < old.len()
            invariant
                new@.len() >= old@.len(),
                name <= old@.len(),
                recording_list@.len() == name,
                forall|i: int|
                    0 <= i < name ==> recording_list@[i].name@ == renamed_name(old@, new@, i),
                forall|i: int|
                    0 <= i < name ==> recording_list@[i].controls() == old@[i].controls(),
                pairs_match(pendings@, rename_pairs(old@, new@, name as int)),
                failure is None ==> forall|i: int|
                    0 <= i < name ==> check_new_name(old@, old@[i].name@, new@[i]@) is None,
                failure matches Some(e) ==> {
                    &&& 0 <= first_bad < name
                    &&& Some(e) == check_new_name(old@, old@[first_bad].name@, new@[first_bad]@)
                    &&& forall|i: int|
                        0 <= i < first_bad ==> check_new_name(old@, old@[i].name@, new@[i]@)
                            is None
                },
            decreases old@.len() - name,
        {
            let changed = !str_eq(new[name].as_str(), old[name].name.as_str());
            if changed {
                let verdict: Option<Error> = if contains_substr(
                    new[name].as_str(),
                    "Default taken...",
                ) {
                    Some(Error::FallbackError)
                } else if str_eq(new[name].as_str(), "settings") {
                    Some(Error::SaveFileRenameError)
                } else if new[name].as_str().unicode_len() == 0 {
                    Some(Error::EmptyError)
                } else if crate::files::File::name_exists(new[name].clone(), old) {
                    Some(Error::ExistsError)
                } else {
                    None
                };
                proof {
                    assert(verdict == check_new_name(old@, old@[name as int].name@, new@[
                        name as int
                    ]@));
                }
                match verdict {
                    None => {
                        let pair = (old[name].name.clone(), new[name].clone());
                        pendings.push(pair);
                        recording_list.push(Recording::from(&new[name], old[name].parse()));
                    },
                    Some(error) => {
                        recording_list.push(
                            Recording::from(&old[name].name, old[name].parse()),
                        );
                        if failure.is_none() {
                            failure = Some(error);
                            proof {
                                first_bad = name as int;
                            }
                        }
                    },
                }
            } else {
                recording_list.push(Recording::from(&old[name].name, old[name].parse()));
            }
            name += 1;
        }
        let plan = RenamePlan { recordings: recording_list, pending: pendings };
        match failure {
            None => {
                proof {
                    lemma_first_invalid_range(old@, new@, 0, old@.len() as int);
                }
                Ok(plan)
            },
            Some(error) => {
                proof {
                    lemma_first_invalid_range(old@, new@, 0, first_bad);
                }
                Err((plan, error))
            },
        }
    }

    /// The names of all recordings in the list, in order.
    pub fn send_names(list: &Vec<Recording>) -> (r: Vec<String>)
        ensures
            r@.len() == list@.len(),
            forall|i: int| 0 <= i < list@.len() ==> r@[i]@ == list@[i].name@,
    {
        let mut new_list: Vec<String> = Vec::new();
        let mut recording: usize = 0;
        while recording < list.len()
            invariant
                recording <= list@.len(),
                new_list@.len() == recording,
                forall|i: int| 0 <= i < recording ==> new_list@[i]@ == list@[i].name@,
            decreases list@.len() - recording,
        {
            new_list.push(list[recording].name.clone());
            recording += 1;
        }
        new_list
    }

    /// The control values of the first `length` recordings, one row each, in
    /// dial order.
    pub fn send_values(list: &Vec<Recording>, length: &usize) -> (r: Vec<Vec<i32>>)
        requires
            *length <= list@.len(),
        ensures
            r@.len() == *length,
            forall|i: int| 0 <= i < *length ==> r@[i]@ == list@[i].controls(),
    {
        let mut all_recording_values: Vec<Vec<i32>> = Vec::new();
        let mut values: usize = 0;
        while values < *length
            invariant
                values <= *length <= list@.len(),
                all_recording_values@.len() == values,
                forall|i: int| 0 <= i < values ==> all_recording_values@[i]@ == list@[i].controls(),
            decreases *length - values,
        {
            let mut recording_values: Vec<i32> = Vec::new();
            recording_values.push(list[values].sub_bass);
            recording_values.push(list[values].bass);
            recording_values.push(list[values].low_mids);
            recording_values.push(list[values].high_mids);
            recording_values.push(list[values].treble);
            recording_values.push(list[values].pan);
            proof {
                assert(recording_values@ =~= list@[values as int].controls());
            }
            all_recording_values.push(recording_values);
            values += 1;
        }
        all_recording_values
    }
}

impl Settings {
    /// An empty catalog.
    pub fn new() -> (r: Settings)
        ensures
            r.presets@.len() == 0,
            r.recordings@.len() == 0,
    {
        Settings { presets: Vec::new(), recordings: Vec::new() }
    }

    /// Appends a new preset made from the current dial values.
    pub fn add_preset(&mut self, dials: [i32; 6])
        ensures
            final(self).recordings@ == old(self).recordings@,
            final(self).presets@.len() == old(self).presets@.len() + 1,
            forall|i: int|
                0 <= i < old(self).presets@.len()
                    ==> final(self).presets@[i] == old(self).presets@[i],
            final(self).presets@.last().name@ == "New Preset"@,
            final(self).presets@.last().controls() == dials@,
    {
        self.presets.push(Preset::from(dials));
    }

    /// Deletes the preset at the given index; an index past the end is
    /// ignored. Returns whether a preset was deleted.
    pub fn delete_preset(&mut self, index: usize) -> (deleted: bool)
        ensures
            final(self).recordings@ == old(self).recordings@,
            deleted == (index < old(self).presets@.len()),
            deleted ==> final(self).presets@ == old(self).presets@.remove(index as int),
            !deleted ==> final(self).presets@ == old(self).presets@,
    {
        if self.presets.len() > index {
            let _ = self.presets.remove(index);
            true
        } else {
            false
        }
    }

    /// Renames every preset from the given list of names; a preset with no
    /// name in the list falls back to the default name.
    pub fn rename_presets(&mut self, names: &Vec<String>)
        ensures
            final(self).recordings@ == old(self).recordings@,
            final(self).presets@.len() == old(self).presets@.len(),
            forall|i: int|
                0 <= i < old(self).presets@.len() ==> final(self).presets@[i].controls() == old(
                    self,
                ).presets@[i].controls(),
            forall|i: int|
                0 <= i < old(self).presets@.len() ==> final(self).presets@[i].name@
                    == preset_name_of(names@, i),
    {
        let ghost presets0 = self.presets@;
        let mut preset: usize = 0;
        while preset < self.presets.len()
            invariant
                presets0 == old(self).presets@,
                self.presets@.len() == presets0.len(),
                self.recordings@ == old(self).recordings@,
                preset <= presets0.len(),
                forall|i: int| preset <= i < presets0.len() ==> self.presets@[i] == presets0[i],
                forall|i: int|
                    0 <= i < preset ==> self.presets@[i].controls() == presets0[i].controls(),
                forall|i: int|
                    0 <= i < preset ==> self.presets@[i].name@ == preset_name_of(names@, i),
            decreases presets0.len() - preset,
        {
            let name = if preset < names.len() {
                names[preset].clone()
            } else {
                String::from_str("New Preset")
            };
            let ghost pre = self.presets@;
            self.presets[preset].name = name;
            proof {
                assert(self.presets@[preset as int].controls() =~= presets0[
                    preset as int
                ].controls());
                assert(self.presets@[preset as int].name@ == preset_name_of(
                    names@,
                    preset as int,
                ));
            }
            preset += 1;
        }
    }

    /// Replaces the control values of the recording at the given position
    /// with the current dial values.
    pub fn edit_recording(&mut self, position: usize, dials: [i32; 6])
        requires
            position < old(self).recordings@.len(),
        ensures
            final(self).presets@ == old(self).presets@,
            final(self).recordings@.len() == old(self).recordings@.len(),
            forall|i: int|
                0 <= i < old(self).recordings@.len() && i != position
                    ==> final(self).recordings@[i] == old(self).recordings@[i],
            final(self).recordings@[position as int].name@
                == old(self).recordings@[position as int].name@,
            final(self).recordings@[position as int].controls() == dials@,
    {
        let name = self.recordings[position].name.clone();
        self.recordings[position] = Recording::from(&name, dials);
    }

    /// Deletes the recording at the given index.
    pub fn delete_recording(&mut self, index: usize)
        requires
            index < old(self).recordings@.len(),
        ensures
            final(self).presets@ == old(self).presets@,
            final(self).recordings@ == old(self).recordings@.remove(index as int),
    {
        let _ = self.recordings.remove(index);
    }

    /// The length of each catalog list.
    pub fn get_index_data(&self) -> (r: IndexData)
        ensures
            r.preset_length == self.presets@.len(),
            r.recording_length == self.recordings@.len(),
    {
        IndexData {
            preset_length: self.presets.len(),
            recording_length: self.recordings.len(),
        }
    }

    /// Reconciles the catalog with the clip base names found on disk. The
    /// rebuilt recording list replaces the old one entirely: one entry per
    /// clip name, in the given order, carrying the controls of the old entry
    /// of the same name or zeroes when the name is new — an entry whose
    /// backing clip vanished is silently dropped. Each clip name with no
    /// pending snapshot of the same name gets a fresh seed snapshot; a
    /// pending snapshot, once matched, is consumed so it is not reused. The
    /// reserved settings entry is filtered out of the pending list first.
    pub fn sync(
        &mut self,
        file_names: &Vec<String>,
        snapshot_names: Vec<String>,
        store: &mut SnapshotStore,
    )
        requires
            old(store).wf(),
            distinct_names(file_names@),
            distinct_names(snapshot_names@),
        ensures
            final(self).presets@ == old(self).presets@,
            final(self).recordings@.len() == file_names@.len(),
            forall|i: int|
                0 <= i < file_names@.len() ==> final(self).recordings@[i].name@
                    == file_names@[i]@,
            forall|i: int|
                0 <= i < file_names@.len() ==> final(self).recordings@[i].controls()
                    == carried_controls(old(self).recordings@, file_names@[i]@),
            final(store).wf(),
            forall|i: int|
                0 <= i < file_names@.len() && pending_snapshot(snapshot_names@, file_names@[i]@)
                    ==> store_unchanged(*old(store), *final(store), file_names@[i]@),
            forall|i: int|
                0 <= i < file_names@.len() && !pending_snapshot(snapshot_names@, file_names@[i]@)
                    ==> seeded(*final(store), file_names@[i]@),
            forall|n: Seq<char>|
                !has_name(file_names@, n) ==> store_unchanged(*old(store), *final(store), n),
    {
        let ghost old_recs = self.recordings@;
        let ghost store0 = *store;
        let ghost snaps0 = snapshot_names@;
        let mut snapshot_names = snapshot_names;

        // Filter the reserved settings entry out of the pending list.
        let slen = snapshot_names.len();
        let mut k: usize = 0;
        let mut found_flag = false;
        let mut found_at: usize = 0;
        while !found_flag && k < slen
            invariant
                slen == snapshot_names@.len(),
                snapshot_names@ == snaps0,
                k <= slen,
                !found_flag ==> forall|j: int| 0 <= j < k ==> snaps0[j]@ != "settings"@,
                found_flag ==> found_at < slen && snaps0[found_at as int]@ == "settings"@,
            decreases slen - k + (if found_flag { 0int } else { 1int }),
        {
            if str_eq(snapshot_names[k].as_str(), "settings") {
                found_flag = true;
                found_at = k;
            } else {
                k += 1;
            }
        }
        if found_flag {
            let _ = snapshot_names.remove(found_at);
            proof {
                lemma_remove_name(snaps0, found_at as int);
            }
        }
        proof {
            assert forall|n: Seq<char>| #[trigger] has_name(snapshot_names@, n)
                == pending_snapshot(snaps0, n) by {
                if n == "settings"@ {
                    if has_name(snapshot_names@, n) {
                        let w = choose|i: int|
                            0 <= i < snapshot_names@.len() && snapshot_names@[i]@ == n;
                        assert(false);
                    }
                }
            }
        }

        // Rebuild the recording list in clip order, consuming pending
        // snapshots and seeding the missing ones.
        let mut updated: Vec<Recording> = Vec::new();
        let mut name_i: usize = 0;
        while name_i < file_names.len()
            invariant
                old(store).wf(),
                store0 == *old(store),
                distinct_names(file_names@),
                self.recordings@ == old_recs,
                self.presets@ == old(self).presets@,
                name_i <= file_names@.len(),
                updated@.len() == name_i,
                forall|j: int| 0 <= j < name_i ==> updated@[j].name@ == file_names@[j]@,
                forall|j: int|
                    0 <= j < name_i ==> updated@[j].controls() == carried_controls(
                        old_recs,
                        file_names@[j]@,
                    ),
                store.wf(),
                forall|j: int|
                    0 <= j < name_i && pending_snapshot(snaps0, file_names@[j]@)
                        ==> store_unchanged(store0, *store, file_names@[j]@),
                forall|j: int|
                    0 <= j < name_i && !pending_snapshot(snaps0, file_names@[j]@) ==> seeded(
                        *store,
                        file_names@[j]@,
                    ),
                forall|n: Seq<char>|
                    !has_name(file_names@.take(name_i as int), n) ==> store_unchanged(
                        store0,
                        *store,
                        n,
                    ),
                distinct_names(snapshot_names@),
                forall|n: Seq<char>|
                    !has_name(file_names@.take(name_i as int), n) ==> (#[trigger] has_name(
                        snapshot_names@,
                        n,
                    ) == pending_snapshot(snaps0, n)),
            decreases file_names@.len() - name_i,
        {
            let ghost n_i = file_names@[name_i as int]@;
            proof {
                assert(!has_name(file_names@.take(name_i as int), n_i)) by {
                    if has_name(file_names@.take(name_i as int), n_i) {
                        let w = choose|i: int|
                            0 <= i < name_i && file_names@.take(name_i as int)[i]@ == n_i;
                        assert(file_names@[w]@ == file_names@[name_i as int]@);
                    }
                }
            }

            // Carry the controls of the old entry of this name, or start
            // from zeroes when the name is new.
            let mut rec: usize = 0;
            let mut found_rec = false;
            let mut rec_at: usize = 0;
            while !found_rec && rec < self.recordings.len()
                invariant
                    self.recordings@ == old_recs,
                    n_i == file_names@[name_i as int]@,
                    name_i < file_names@.len(),
                    rec <= old_recs.len(),
                    !found_rec ==> forall|j: int| 0 <= j < rec ==> old_recs[j].name@ != n_i,
                    found_rec ==> rec_at < old_recs.len() && old_recs[rec_at as int].name@ == n_i
                        && (forall|j: int| 0 <= j < rec_at ==> old_recs[j].name@ != n_i),
                decreases old_recs.len() - rec + (if found_rec { 0int } else { 1int }),
            {
                if str_eq(self.recordings[rec].name.as_str(), file_names[name_i].as_str()) {
                    found_rec = true;
                    rec_at = rec;
                } else {
                    rec += 1;
                }
            }
            if found_rec {
                let vals = self.recordings[rec_at].parse();
                updated.push(Recording::from(&file_names[name_i], vals));
                proof {
                    lemma_find_recording_at(old_recs, n_i, rec_at as int);
                    assert(updated@.last().controls() == carried_controls(old_recs, n_i));
                }
            } else {
                updated.push(Recording::new(&file_names[name_i]));
                proof {
                    lemma_find_recording(old_recs, n_i);
                    assert(!has_recording(old_recs, n_i));
                    assert(updated@.last().controls() == carried_controls(old_recs, n_i));
                }
            }

            // Consume the pending snapshot of this name, or seed a new one.
            let mut f: usize = 0;
            let mut have = false;
            let mut have_at: usize = 0;
            while !have && f < snapshot_names.len()
                invariant
                    n_i == file_names@[name_i as int]@,
                    name_i < file_names@.len(),
                    f <= snapshot_names@.len(),
                    !have ==> forall|j: int| 0 <= j < f ==> snapshot_names@[j]@ != n_i,
                    have ==> have_at < snapshot_names@.len()
                        && snapshot_names@[have_at as int]@ == n_i,
                decreases snapshot_names@.len() - f + (if have { 0int } else { 1int }),
            {
                if str_eq(snapshot_names[f].as_str(), file_names[name_i].as_str()) {
                    have = true;
                    have_at = f;
                } else {
                    f += 1;
                }
            }
            let ghost snaps_pre = snapshot_names@;
            let ghost store_pre = *store;
            if have {
                let _ = snapshot_names.remove(have_at);
                proof {
                    lemma_remove_name(snaps_pre, have_at as int);
                    assert(has_name(snaps_pre, n_i));
                    assert(pending_snapshot(snaps0, n_i));
                }
            } else {
                let _ = SnapShot::create(store, file_names[name_i].as_str());
                proof {
                    assert(!has_name(snaps_pre, n_i));
                    assert(!pending_snapshot(snaps0, n_i));
                    assert(seeded(*store, n_i));
                }
            }
            name_i += 1;
            proof {
                let taken = file_names@.take(name_i as int);
                let prev = file_names@.take(name_i - 1);
                assert forall|n: Seq<char>|
                    #![trigger has_name(taken, n)]
                    #![trigger has_name(snapshot_names@, n)]
                    !has_name(taken, n) implies store_unchanged(store0, *store, n) && (has_name(
                    snapshot_names@,
                    n,
                ) == pending_snapshot(snaps0, n)) by {
                    if has_name(prev, n) {
                        let w = choose|i: int| 0 <= i < prev.len() && prev[i]@ == n;
                        assert(taken[w]@ == n);
                        assert(false);
                    }
                    assert(taken[name_i - 1]@ == n_i);
                    assert(n != n_i);
                    assert(store_unchanged(store0, store_pre, n));
                    assert(has_name(snaps_pre, n) == pending_snapshot(snaps0, n));
                    assert(store_unchanged(store_pre, *store, n));
                    assert(has_name(snapshot_names@, n) == has_name(snaps_pre, n));
                }
                assert forall|j: int|
                    0 <= j < name_i && pending_snapshot(snaps0, file_names@[j]@)
                        implies store_unchanged(store0, *store, file_names@[j]@) by {
                    if j < name_i - 1 {
                        assert(file_names@[j]@ != n_i);
                        assert(store_unchanged(store0, store_pre, file_names@[j]@));
                    }
                }
                assert forall|j: int|
                    0 <= j < name_i && !pending_snapshot(snaps0, file_names@[j]@) implies seeded(
                    *store,
                    file_names@[j]@,
                ) by {
                    if j < name_i - 1 {
                        assert(file_names@[j]@ != n_i);
                        assert(seeded(store_pre, file_names@[j]@));
                        assert(store_unchanged(store_pre, *store, file_names@[j]@));
                    }
                }
            }
        }
        proof {
            assert(file_names@.take(file_names@.len() as int) =~= file_names@);
        }
        self.recordings = updated;
    }
}

} // verus!
