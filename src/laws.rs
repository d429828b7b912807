use vstd::prelude::*;

use vstd::arithmetic::div_mod::{
    lemma_add_mod_noop, lemma_fundamental_div_mod, lemma_mod_add_multiples_vanish, lemma_small_mod,
};

use crate::activation::{activated, current_index, next_name};
use crate::bridge::{chosen_zone, setup_error, BridgeErrorKind};
use crate::registry::{lemma_sorted_distinct, replay_names, ConfigModel, NameEdit, ProfileModel};

verus! {

/// The names that some edit adds.
pub open spec fn added_names(edits: Seq<NameEdit>) -> Set<Seq<char>> {
    Set::new(|n: Seq<char>| exists|i: int| 0 <= i < edits.len() && edits[i] == NameEdit::Add(n))
}

/// The names that some edit removes.
pub open spec fn removed_names(edits: Seq<NameEdit>) -> Set<Seq<char>> {
    Set::new(|n: Seq<char>| exists|i: int| 0 <= i < edits.len() && edits[i] == NameEdit::Remove(n))
}

/// No name is both added and removed.
pub open spec fn non_conflicting(edits: Seq<NameEdit>) -> bool {
    forall|i: int, j: int|
        0 <= i < edits.len() && 0 <= j < edits.len() && #[trigger] edits[i] is Add
            && #[trigger] edits[j] is Remove ==> edits[i]->Add_0 != edits[j]->Remove_0
}

/// Replaying adds and removes in which no name is both added and removed
/// leaves the starting names, plus every name added, minus every name
/// removed, whatever the order of the edits.
pub proof fn lemma_replay_set_algebra(start: Set<Seq<char>>, edits: Seq<NameEdit>)
    requires
        non_conflicting(edits),
    ensures
        replay_names(start, edits) == start.union(added_names(edits)).difference(
            removed_names(edits),
        ),
    decreases edits.len(),
{
    if edits.len() == 0 {
        assert(start.union(added_names(edits)).difference(removed_names(edits)) =~= start);
    } else {
        let prefix = edits.drop_last();
        assert forall|i: int, j: int|
            0 <= i < prefix.len() && 0 <= j < prefix.len() && #[trigger] prefix[i] is Add
                && #[trigger] prefix[j] is Remove implies prefix[i]->Add_0 != prefix[j]->Remove_0 by {
            assert(edits[i] == prefix[i] && edits[j] == prefix[j]);
        }
        lemma_replay_set_algebra(start, prefix);
        let last = edits.last();
        let k = edits.len() - 1;
        assert forall|n: Seq<char>| #[trigger] added_names(edits).contains(n) <==> (added_names(
            prefix,
        ).contains(n) || last == NameEdit::Add(n)) by {
            if added_names(edits).contains(n) {
                let i = choose|i: int| 0 <= i < edits.len() && edits[i] == NameEdit::Add(n);
                if i < k {
                    assert(prefix[i] == edits[i]);
                }
            }
            if added_names(prefix).contains(n) {
                let i = choose|i: int| 0 <= i < prefix.len() && prefix[i] == NameEdit::Add(n);
                assert(edits[i] == prefix[i]);
            }
        }
        assert forall|n: Seq<char>| #[trigger] removed_names(edits).contains(n) <==> (
        removed_names(prefix).contains(n) || last == NameEdit::Remove(n)) by {
            if removed_names(edits).contains(n) {
                let i = choose|i: int| 0 <= i < edits.len() && edits[i] == NameEdit::Remove(n);
                if i < k {
                    assert(prefix[i] == edits[i]);
                }
            }
            if removed_names(prefix).contains(n) {
                let i = choose|i: int| 0 <= i < prefix.len() && prefix[i] == NameEdit::Remove(n);
                assert(edits[i] == prefix[i]);
            }
        }
        match last {
            NameEdit::Add(n) => {
                assert(!removed_names(edits).contains(n)) by {
                    if removed_names(edits).contains(n) {
                        let j = choose|j: int|
                            0 <= j < edits.len() && edits[j] == NameEdit::Remove(n);
                        assert(edits[k] == NameEdit::Add(n));
                    }
                }
            },
            NameEdit::Remove(n) => {
                assert(!added_names(edits).contains(n)) by {
                    if added_names(edits).contains(n) {
                        let i = choose|i: int| 0 <= i < edits.len() && edits[i] == NameEdit::Add(n);
                        assert(edits[k] == NameEdit::Remove(n));
                    }
                }
            },
        }
        assert(replay_names(start, edits) =~= start.union(added_names(edits)).difference(
            removed_names(edits),
        ));
    }
}

/// The profiles after adding `name` with `p`: a registered name is kept as
/// it was, a new one is inserted.
pub open spec fn profiles_after_add(
    ps: Map<Seq<char>, ProfileModel>,
    name: Seq<char>,
    p: ProfileModel,
) -> Map<Seq<char>, ProfileModel> {
    if ps.contains_key(name) {
        ps
    } else {
        ps.insert(name, p)
    }
}

/// Adding the same name twice: after the first add the name is registered,
/// so the second add is rejected and changes nothing; the profile stored
/// under the name is the one the first add gave it (or the one already there).
pub proof fn lemma_second_add_rejected(
    ps: Map<Seq<char>, ProfileModel>,
    name: Seq<char>,
    first: ProfileModel,
    second: ProfileModel,
)
    ensures
        profiles_after_add(ps, name, first).contains_key(name),
        profiles_after_add(profiles_after_add(ps, name, first), name, second) == profiles_after_add(
            ps,
            name,
            first,
        ),
        !ps.contains_key(name) ==> profiles_after_add(
            profiles_after_add(ps, name, first),
            name,
            second,
        )[name] == first,
{
}

/// The registry after `k` rotations.
pub open spec fn rotate_times(m: ConfigModel, k: nat) -> ConfigModel
    decreases k,
{
    if k == 0 {
        m
    } else {
        let before = rotate_times(m, (k - 1) as nat);
        activated(before, next_name(before))
    }
}

proof fn lemma_rotation_step(m: ConfigModel, k: nat)
    requires
        m.wf(),
        m.names.len() > 0,
    ensures
        rotate_times(m, k).names == m.names,
        rotate_times(m, k).profiles == m.profiles,
        k >= 1 ==> rotate_times(m, k).current == Some(
            m.names[(current_index(m) + k) % (m.names.len() as int)],
        ),
    decreases k,
{
    let n = m.names.len() as int;
    if k >= 1 {
        let before = rotate_times(m, (k - 1) as nat);
        lemma_rotation_step(m, (k - 1) as nat);
        if k >= 2 {
            let q = (current_index(m) + k - 1) % n;
            assert(0 <= q < n);
            let c = m.names[q];
            assert(before.names.contains(c));
            let j = current_index(before);
            assert(0 <= j < n && before.names[j] == c);
            lemma_sorted_distinct(m.names, q, j);
            lemma_add_mod_noop(current_index(m) + k - 1, 1, n);
            lemma_add_mod_noop(q, 1, n);
            lemma_small_mod(q as nat, n as nat);
        }
    }
}

proof fn lemma_residues_differ(a: int, b: int, n: int)
    requires
        0 <= a < b,
        b - a < n,
    ensures
        a % n != b % n,
{
    lemma_fundamental_div_mod(a, n);
    lemma_fundamental_div_mod(b, n);
    let d = b / n - a / n;
    if a % n == b % n {
        assert(b - a == n * d) by (nonlinear_arith)
            requires
                a == n * (a / n) + a % n,
                b == n * (b / n) + b % n,
                a % n == b % n,
                d == b / n - a / n,
        ;
        assert(false) by (nonlinear_arith)
            requires
                b - a == n * d,
                0 < b - a < n,
        ;
    }
}

/// Rotation cycles through the profiles in ascending order of name: with
/// `n` profiles, the next `n` rotations from any active name (or none)
/// activate `n` different profiles, so each exactly once, and from a
/// registered active name the `n`-th rotation returns to it.
pub proof fn lemma_rotation_cycles(m: ConfigModel)
    requires
        m.wf(),
        m.names.len() > 0,
    ensures
        forall|k: nat|
            1 <= k <= m.names.len() ==> #[trigger] rotate_times(m, k).current == Some(
                m.names[(current_index(m) + k) % (m.names.len() as int)],
            ),
        forall|i: nat, j: nat|
            1 <= i < j <= m.names.len() ==> #[trigger] rotate_times(m, i).current
                != #[trigger] rotate_times(m, j).current,
        forall|t: int|
            0 <= t < m.names.len() ==> exists|k: nat|
                1 <= k <= m.names.len() && #[trigger] rotate_times(m, k).current == Some(
                    #[trigger] m.names[t],
                ),
        m.current matches Some(c) && m.names.contains(c) ==> rotate_times(
            m,
            m.names.len(),
        ).current == m.current,
{
    let n = m.names.len() as int;
    let ci = current_index(m);
    assert(-1 <= ci < n) by {
        if m.current is Some && m.names.contains(m.current->0) {
            assert(0 <= ci < n && m.names[ci] == m.current->0);
        }
    }
    assert forall|k: nat| 1 <= k <= m.names.len() implies #[trigger] rotate_times(m, k).current
        == Some(m.names[(ci + k) % n]) by {
        lemma_rotation_step(m, k);
    }
    assert forall|i: nat, j: nat| 1 <= i < j <= m.names.len() implies #[trigger] rotate_times(
        m,
        i,
    ).current != #[trigger] rotate_times(m, j).current by {
        lemma_rotation_step(m, i);
        lemma_rotation_step(m, j);
        lemma_residues_differ(ci + i, ci + j, n);
        let a = (ci + i) % n;
        let b = (ci + j) % n;
        if m.names[a] == m.names[b] {
            lemma_sorted_distinct(m.names, a, b);
        }
    }
    assert forall|t: int| 0 <= t < m.names.len() implies exists|k: nat|
        1 <= k <= m.names.len() && #[trigger] rotate_times(m, k).current == Some(
            #[trigger] m.names[t],
        ) by {
        let k: nat = if t > ci {
            (t - ci) as nat
        } else {
            (t - ci + n) as nat
        };
        lemma_rotation_step(m, k);
        if t > ci {
            lemma_small_mod(t as nat, n as nat);
        } else {
            lemma_mod_add_multiples_vanish(t, n);
            lemma_small_mod(t as nat, n as nat);
        }
        assert(rotate_times(m, k).current == Some(m.names[t]));
    }
    if m.current is Some && m.names.contains(m.current->0) {
        assert(0 <= ci < n && m.names[ci] == m.current->0);
        lemma_rotation_step(m, n as nat);
        lemma_mod_add_multiples_vanish(ci, n);
        lemma_small_mod(ci as nat, n as nat);
    }
}

/// Activation changes neither the names nor the profiles, keeps the
/// registry well formed, and makes the activated name the active one.
pub proof fn lemma_activation_keeps_profiles(m: ConfigModel, name: Seq<char>)
    ensures
        activated(m, name).names == m.names,
        activated(m, name).profiles == m.profiles,
        activated(m, name).current == Some(name),
        activated(m, name).wf() == m.wf(),
{
}

/// Removing the active profile leaves no active name; removing any other
/// leaves the active name as it was.
pub proof fn lemma_removal_and_current(m: ConfigModel, name: Seq<char>)
    ensures
        m.current == Some(name) ==> m.current_after_removal(name) is None,
        m.current != Some(name) ==> m.current_after_removal(name) == m.current,
{
}

/// With a registered active profile, an explicit zone is used whatever the
/// profile's default; the default is used only without one; and with
/// neither the set-up fails for want of a zone.
pub proof fn lemma_explicit_zone_preferred(m: ConfigModel, explicit: Option<Seq<char>>)
    requires
        m.current matches Some(c) && m.profiles.contains_key(c),
    ensures
        explicit is Some ==> chosen_zone(explicit, m.profiles[m.current->0].zone) == explicit
            && setup_error(m, explicit) is None,
        explicit is None ==> chosen_zone(explicit, m.profiles[m.current->0].zone)
            == m.profiles[m.current->0].zone,
        explicit is None && m.profiles[m.current->0].zone is None ==> setup_error(m, explicit)
            == Some(BridgeErrorKind::NoZoneSpecified),
{
}

} // verus!
