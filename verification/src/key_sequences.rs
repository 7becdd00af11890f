//! Matching key presses against the key sequences bound in a mode: whole
//! sequences, a pending prefix, and a failed sequence retried from its last
//! key; the mode whose sequence is pending; and the checks that send a mode
//! back to its default bindings (two bindings of the same sequence, or one
//! that begins another).

use vstd::prelude::*;
use crate::keys::{canonical_key, canonical_spec, KeyPress};
use crate::text::{chars_of, concat_str, strings_view};

verus! {

/// A key sequence bound to an action, the action by its index.
#[derive(Debug)]
pub struct BoundSequence {
    pub action: usize,
    pub keys: Vec<KeyPress>,
}

/// The bound sequences as pairs of action and keys.
pub open spec fn bound_view(bs: Seq<BoundSequence>) -> Seq<(usize, Seq<KeyPress>)> {
    bs.map_values(|b: BoundSequence| (b.action, b.keys@))
}

/// What a key press gives.
#[derive(Debug, Clone, Copy, PartialEq, Eq, Structural)]
pub enum Dispatch {
    /// The keys so far are a bound sequence of this action.
    Matched { action: usize },
    /// The keys so far begin a longer bound sequence.
    Pending,
    /// No bound sequence.
    Unmatched,
}

/// The action of the first bound sequence that is exactly `keys`.
pub open spec fn exact_match(bs: Seq<(usize, Seq<KeyPress>)>, keys: Seq<KeyPress>) -> Option<usize>
    decreases bs.len(),
{
    if bs.len() == 0 {
        None
    } else if bs[0].1 == keys {
        Some(bs[0].0)
    } else {
        exact_match(bs.drop_first(), keys)
    }
}

/// Whether `keys` begins a longer bound sequence.
pub open spec fn begins_longer(bs: Seq<(usize, Seq<KeyPress>)>, keys: Seq<KeyPress>) -> bool {
    exists|i: int| 0 <= i < bs.len() && keys.len() < (#[trigger] bs[i]).1.len() && bs[i].1.take(keys.len() as int) == keys
}

/// What the keys `keys` give, and the keys kept waiting: a match clears
/// them, a prefix of a longer sequence keeps them, anything else clears
/// them.
pub open spec fn try_keys(bs: Seq<(usize, Seq<KeyPress>)>, keys: Seq<KeyPress>) -> (Dispatch, Seq<KeyPress>) {
    match exact_match(bs, keys) {
        Some(a) => (Dispatch::Matched { action: a }, Seq::empty()),
        None => if begins_longer(bs, keys) {
            (Dispatch::Pending, keys)
        } else {
            (Dispatch::Unmatched, Seq::empty())
        },
    }
}

/// What a key press gives after the keys `waiting`, and the keys kept
/// waiting: the press (in canonical form) joins the waiting keys; when they
/// then match nothing and were more than the press alone, the press is
/// tried again on its own.
pub open spec fn press_spec(bs: Seq<(usize, Seq<KeyPress>)>, waiting: Seq<KeyPress>, key: KeyPress) -> (
    Dispatch,
    Seq<KeyPress>,
) {
    let k = canonical_spec(key);
    let joined = waiting.push(k);
    let r = try_keys(bs, joined);
    if r.0 == Dispatch::Unmatched && joined.len() > 1 {
        try_keys(bs, seq![k])
    } else {
        r
    }
}

fn keys_equal(a: &Vec<KeyPress>, b: &Vec<KeyPress>) -> (r: bool)
    ensures
        r == (a@ == b@),
{
    if a.len() != b.len() {
        return false;
    }
    let mut i: usize = 0;
    while i < a.len()
        invariant
            i <= a.len(),
            a.len() == b.len(),
            forall|j: int| 0 <= j < i ==> a@[j] == b@[j],
        decreases a.len() - i,
    {
        if a[i] != b[i] {
            return false;
        }
        i = i + 1;
    }
    assert(a@ =~= b@);
    true
}

/// Whether `a` is shorter than `b` and begins it.
fn begins(a: &Vec<KeyPress>, b: &Vec<KeyPress>) -> (r: bool)
    ensures
        r == (a@.len() < b@.len() && b@.take(a@.len() as int) == a@),
{
    if a.len() >= b.len() {
        return false;
    }
    let mut i: usize = 0;
    while i < a.len()
        invariant
            i <= a.len(),
            a.len() < b.len(),
            forall|j: int| 0 <= j < i ==> a@[j] == b@[j],
        decreases a.len() - i,
    {
        if a[i] != b[i] {
            assert(b@.take(a@.len() as int)[i as int] != a@[i as int]);
            return false;
        }
        i = i + 1;
    }
    assert(b@.take(a@.len() as int) =~= a@);
    true
}

/// What the keys `keys` give (see [`try_keys`]).
fn try_keys_exec(bs: &Vec<BoundSequence>, keys: &Vec<KeyPress>) -> (r: (Dispatch, bool))
    ensures
        r.0 == try_keys(bound_view(bs@), keys@).0,
        r.1 == (try_keys(bound_view(bs@), keys@).1 == keys@),
        try_keys(bound_view(bs@), keys@).1 == keys@ || try_keys(bound_view(bs@), keys@).1.len() == 0,
{
    let ghost bv = bound_view(bs@);
    let mut i: usize = 0;
    assert(bv.skip(0) =~= bv);
    while i < bs.len()
        invariant
            i <= bs.len(),
            bv == bound_view(bs@),
            exact_match(bv, keys@) == exact_match(bv.skip(i as int), keys@),
        decreases bs.len() - i,
    {
        assert(bv.skip(i as int)[0] == (bs@[i as int].action, bs@[i as int].keys@));
        assert(bv.skip(i as int).drop_first() =~= bv.skip(i + 1));
        if keys_equal(&bs[i].keys, keys) {
            assert(exact_match(bv.skip(i as int), keys@) == Some(bs@[i as int].action));
            proof {
                if keys@.len() == 0 {
                    assert(keys@ =~= Seq::<KeyPress>::empty());
                }
            }
            return (Dispatch::Matched { action: bs[i].action }, keys.len() == 0);
        }
        i = i + 1;
    }
    assert(bv.skip(i as int) =~= Seq::<(usize, Seq<KeyPress>)>::empty());
    let mut j: usize = 0;
    while j < bs.len()
        invariant
            j <= bs.len(),
            bv == bound_view(bs@),
            exact_match(bv, keys@) is None,
            forall|q: int| 0 <= q < j ==> !(keys@.len() < (#[trigger] bv[q]).1.len() && bv[q].1.take(keys@.len() as int) == keys@),
        decreases bs.len() - j,
    {
        assert(bv[j as int] == (bs@[j as int].action, bs@[j as int].keys@));
        if begins(keys, &bs[j].keys) {
            assert(keys@.len() < bv[j as int].1.len() && bv[j as int].1.take(keys@.len() as int) == keys@);
            assert(begins_longer(bv, keys@));
            return (Dispatch::Pending, true);
        }
        j = j + 1;
    }
    assert(exact_match(bv, keys@) is None);
    assert(!begins_longer(bv, keys@));
    proof {
        if keys@.len() == 0 {
            assert(keys@ =~= Seq::<KeyPress>::empty());
        }
    }
    (Dispatch::Unmatched, keys.len() == 0)
}

/// Takes a key press in a mode whose bound sequences are `bs`, with the
/// keys `waiting` from earlier presses (see [`press_spec`]).
pub fn press_key(bs: &Vec<BoundSequence>, waiting: &mut Vec<KeyPress>, key: KeyPress) -> (r: Dispatch)
    ensures
        (r, final(waiting)@) == press_spec(bound_view(bs@), old(waiting)@, key),
{
    let k = canonical_key(key);
    waiting.push(k);
    let (r, keep) = try_keys_exec(bs, waiting);
    if matches!(r, Dispatch::Unmatched) && waiting.len() > 1 {
        let mut single: Vec<KeyPress> = Vec::new();
        single.push(k);
        assert(single@ =~= seq![k]);
        let (r2, keep2) = try_keys_exec(bs, &single);
        *waiting = if keep2 {
            single
        } else {
            Vec::new()
        };
        proof {
            if !keep2 {
                assert(waiting@ =~= Seq::<KeyPress>::empty());
            }
        }
        r2
    } else {
        if !keep {
            *waiting = Vec::new();
            assert(waiting@ =~= Seq::<KeyPress>::empty());
        }
        r
    }
}

/// The keys waiting in each mode and the mode, if any, whose sequence is
/// pending.
pub struct SequenceState {
    pub waiting: Vec<Vec<KeyPress>>,
    pub active: Option<usize>,
}

/// The keys waiting in each mode.
pub open spec fn waiting_view(ws: Seq<Vec<KeyPress>>) -> Seq<Seq<KeyPress>> {
    ws.map_values(|w: Vec<KeyPress>| w@)
}

/// The keys waiting in each mode once a pending sequence of a mode other
/// than `mode` is dropped.
pub open spec fn drop_other_pending(waiting: Seq<Seq<KeyPress>>, active: Option<usize>, mode: usize) -> Seq<Seq<KeyPress>> {
    match active {
        Some(m) => if m != mode && m < waiting.len() {
            waiting.update(m as int, Seq::empty())
        } else {
            waiting
        },
        None => waiting,
    }
}

/// A key press in mode `mode`: a pending sequence of another mode is
/// dropped first, then the press is taken in the mode (see
/// [`press_spec`]); afterwards the mode is the pending one when the press
/// left its sequence pending, and no mode is otherwise.
pub fn press_in_mode(state: &mut SequenceState, mode: usize, bs: &Vec<BoundSequence>, key: KeyPress) -> (r: Dispatch)
    requires
        mode < old(state).waiting@.len(),
    ensures
        ({
            let cleared = drop_other_pending(waiting_view(old(state).waiting@), old(state).active, mode);
            let p = press_spec(bound_view(bs@), cleared[mode as int], key);
            &&& r == p.0
            &&& waiting_view(final(state).waiting@) == cleared.update(mode as int, p.1)
            &&& final(state).active == (if p.0 == Dispatch::Pending {
                Some(mode)
            } else {
                None
            })
        }),
{
    let ghost start = waiting_view(state.waiting@);
    match state.active {
        Some(m) => {
            if m != mode && m < state.waiting.len() {
                state.waiting[m] = Vec::new();
                assert(waiting_view(state.waiting@) =~= start.update(m as int, Seq::empty()));
            }
        },
        None => {},
    }
    let ghost cleared = waiting_view(state.waiting@);
    assert(cleared == drop_other_pending(start, state.active, mode));
    let mut w: Vec<KeyPress> = Vec::new();
    std::mem::swap(&mut w, &mut state.waiting[mode]);
    assert(w@ == cleared[mode as int]);
    let r = press_key(bs, &mut w, key);
    let ghost after = w@;
    state.waiting[mode] = w;
    assert(waiting_view(state.waiting@) =~= cleared.update(mode as int, after));
    state.active = if matches!(r, Dispatch::Pending) {
        Some(mode)
    } else {
        None
    };
    r
}

/// A configured key of an action: the action's name, the key as written,
/// and the key sequence it reads as, or why it reads as none.
#[derive(Debug)]
pub struct ConfiguredKey {
    pub id: String,
    pub key: String,
    pub parsed: Result<Vec<KeyPress>, String>,
}

/// A configured key as plain values.
pub open spec fn configured_view(k: ConfiguredKey) -> (Seq<char>, Seq<char>, Result<Seq<KeyPress>, Seq<char>>) {
    (
        k.id@,
        k.key@,
        match k.parsed {
            Ok(p) => Ok(p@),
            Err(e) => Err(e@),
        },
    )
}

/// The configured keys as plain values.
pub open spec fn configured_keys_view(ks: Seq<ConfiguredKey>) -> Seq<(Seq<char>, Seq<char>, Result<Seq<KeyPress>, Seq<char>>)> {
    ks.map_values(|k: ConfiguredKey| configured_view(k))
}

/// Whether `x` begins with `y` (or is it).
pub open spec fn starts_with(x: Seq<KeyPress>, y: Seq<KeyPress>) -> bool {
    y.len() <= x.len() && x.take(y.len() as int) == y
}

/// Two sequences that cannot both be bound in a mode: the same sequence, or
/// one that begins the other.
pub open spec fn sequences_conflict(x: Seq<KeyPress>, y: Seq<KeyPress>) -> bool {
    x == y || starts_with(x, y) || starts_with(y, x)
}

/// The first key from `j` on, before key `i`, whose sequence conflicts with
/// key `i`'s.
pub open spec fn first_conflict_from(ks: Seq<(Seq<char>, Seq<char>, Result<Seq<KeyPress>, Seq<char>>)>, i: int, j: int) -> Option<int>
    decreases i - j,
{
    if j >= i {
        None
    } else if ks[j].2 matches Ok(pj) && ks[i].2 matches Ok(pi) && sequences_conflict(pj, pi) {
        Some(j)
    } else {
        first_conflict_from(ks, i, j + 1)
    }
}

/// What is wrong with key `i`, given that no earlier key was wrong: it reads
/// as no sequence, or its sequence conflicts with an earlier one.
pub open spec fn key_problem(ks: Seq<(Seq<char>, Seq<char>, Result<Seq<KeyPress>, Seq<char>>)>, i: int) -> Option<Seq<char>> {
    match ks[i].2 {
        Err(e) => Some("invalid key '"@ + ks[i].1 + "' for '"@ + ks[i].0 + "': "@ + e),
        Ok(_) => match first_conflict_from(ks, i, 0) {
            Some(j) => Some(
                "key '"@ + ks[i].1 + "' for '"@ + ks[i].0 + "' conflicts with '"@ + ks[j].1 + "' for '"@ + ks[j].0
                    + "'"@,
            ),
            None => None,
        },
    }
}

/// What is wrong with the first `n` configured keys of a mode: the problem
/// of the first key that has one.
pub open spec fn keys_problem(ks: Seq<(Seq<char>, Seq<char>, Result<Seq<KeyPress>, Seq<char>>)>, n: int) -> Option<Seq<char>>
    decreases n,
{
    if n <= 0 {
        None
    } else {
        match keys_problem(ks, n - 1) {
            Some(m) => Some(m),
            None => key_problem(ks, n - 1),
        }
    }
}

proof fn lemma_problem_stays(
    ks: Seq<(Seq<char>, Seq<char>, Result<Seq<KeyPress>, Seq<char>>)>,
    n: int,
    m: int,
)
    requires
        0 < n <= m,
        keys_problem(ks, n) is Some,
    ensures
        keys_problem(ks, m) == keys_problem(ks, n),
    decreases m - n,
{
    if m > n {
        lemma_problem_stays(ks, n, m - 1);
    }
}

fn starts_with_exec(x: &Vec<KeyPress>, y: &Vec<KeyPress>) -> (r: bool)
    ensures
        r == starts_with(x@, y@),
{
    if y.len() > x.len() {
        return false;
    }
    let mut i: usize = 0;
    while i < y.len()
        invariant
            i <= y.len(),
            y.len() <= x.len(),
            forall|j: int| 0 <= j < i ==> x@[j] == y@[j],
        decreases y.len() - i,
    {
        if x[i] != y[i] {
            assert(x@.take(y@.len() as int)[i as int] != y@[i as int]);
            return false;
        }
        i = i + 1;
    }
    assert(x@.take(y@.len() as int) =~= y@);
    true
}

/// Checks the keys configured for a mode, in order: each must read as a
/// sequence, and none may conflict with an earlier one (see
/// [`keys_problem`]); the error says what is wrong with the first bad key.
pub fn validate_keys(ks: &Vec<ConfiguredKey>) -> (r: Result<(), String>)
    ensures
        match r {
            Ok(_) => keys_problem(configured_keys_view(ks@), ks@.len() as int) is None,
            Err(m) => keys_problem(configured_keys_view(ks@), ks@.len() as int) == Some(m@),
        },
{
    let ghost kv = configured_keys_view(ks@);
    let mut i: usize = 0;
    while i < ks.len()
        invariant
            i <= ks.len(),
            kv == configured_keys_view(ks@),
            keys_problem(kv, i as int) is None,
        decreases ks.len() - i,
    {
        let ki = &ks[i];
        assert(kv[i as int] == configured_view(ks@[i as int]));
        match &ki.parsed {
            Err(e) => {
                let m1 = concat_str("invalid key '", ki.key.as_str());
                let m2 = concat_str(m1.as_str(), "' for '");
                let m3 = concat_str(m2.as_str(), ki.id.as_str());
                let m4 = concat_str(m3.as_str(), "': ");
                let m5 = concat_str(m4.as_str(), e.as_str());
                assert(keys_problem(kv, i + 1) == key_problem(kv, i as int));
                proof {
                    lemma_problem_stays(kv, i + 1, ks@.len() as int);
                }
                return Err(m5);
            },
            Ok(pi) => {
                let mut j: usize = 0;
                while j < i
                    invariant
                        j <= i,
                        i < ks.len(),
                        kv == configured_keys_view(ks@),
                        ks@[i as int].parsed == Ok::<Vec<KeyPress>, String>(*pi),
                        keys_problem(kv, i as int) is None,
                        *ki == ks@[i as int],
                        first_conflict_from(kv, i as int, 0) == first_conflict_from(kv, i as int, j as int),
                    decreases i - j,
                {
                    let kj = &ks[j];
                    assert(kv[j as int] == configured_view(ks@[j as int]));
                    let hit = match &kj.parsed {
                        Ok(pj) => starts_with_exec(pj, pi) || starts_with_exec(pi, pj),
                        Err(_) => false,
                    };
                    proof {
                        if kv[j as int].2 is Ok {
                            let pjv = kv[j as int].2->Ok_0;
                            if pjv == pi@ {
                                assert(pjv.take(pi@.len() as int) =~= pjv);
                            }
                        }
                    }
                    if hit {
                        let m1 = concat_str("key '", ki.key.as_str());
                        let m2 = concat_str(m1.as_str(), "' for '");
                        let m3 = concat_str(m2.as_str(), ki.id.as_str());
                        let m4 = concat_str(m3.as_str(), "' conflicts with '");
                        let m5 = concat_str(m4.as_str(), kj.key.as_str());
                        let m6 = concat_str(m5.as_str(), "' for '");
                        let m7 = concat_str(m6.as_str(), kj.id.as_str());
                        let m8 = concat_str(m7.as_str(), "'");
                        assert(first_conflict_from(kv, i as int, j as int) == Some(j as int));
                        assert(kv[i as int] == configured_view(ks@[i as int]));
                        assert(kv[i as int].2 is Ok);
                        assert(first_conflict_from(kv, i as int, 0) == Some(j as int));
                        assert(kv[i as int].1 == ki.key@ && kv[i as int].0 == ki.id@);
                        assert(kv[j as int].1 == kj.key@ && kv[j as int].0 == kj.id@);
                        assert(m8@ =~= "key '"@ + ki.key@ + "' for '"@ + ki.id@ + "' conflicts with '"@ + kj.key@
                            + "' for '"@ + kj.id@ + "'"@);
                        assert(key_problem(kv, i as int) == Some(m8@));
                        assert(keys_problem(kv, i + 1) == key_problem(kv, i as int));
                        proof {
                            lemma_problem_stays(kv, i + 1, ks@.len() as int);
                        }
                        return Err(m8);
                    }
                    j = j + 1;
                }
                assert(keys_problem(kv, i + 1) == key_problem(kv, i as int));
            },
        }
        i = i + 1;
    }
    Ok(())
}

/// The warning for a mode whose configured keys are given up.
pub open spec fn fallback_warning(mode: Seq<char>, problem: Seq<char>) -> Seq<char> {
    "Ignoring [keybindings."@ + mode + "]: "@ + problem + "; using defaults for this mode"@
}

/// The bindings a mode ends up with: the configured ones when they have no
/// problem; otherwise its defaults, with a warning that says why.
pub fn settle_bindings<T>(mode: &str, configured: T, defaults: T, problem: Result<(), String>, warnings: &mut Vec<String>) -> (r: T)
    ensures
        match problem {
            Ok(_) => r == configured && final(warnings)@ == old(warnings)@,
            Err(m) => r == defaults && strings_view(final(warnings)@) == strings_view(old(warnings)@).push(
                fallback_warning(mode@, m@),
            ),
        },
{
    match problem {
        Ok(_) => configured,
        Err(m) => {
            let m1 = concat_str("Ignoring [keybindings.", mode);
            let m2 = concat_str(m1.as_str(), "]: ");
            let m3 = concat_str(m2.as_str(), m.as_str());
            let m4 = concat_str(m3.as_str(), "; using defaults for this mode");
            let ghost before = warnings@;
            warnings.push(m4);
            assert(strings_view(warnings@) =~= strings_view(before).push(m4@));
            defaults
        },
    }
}

/// The bindings of a mode as plain values: each action's name with its keys.
pub open spec fn bindings_view(bs: Seq<(String, Vec<String>)>) -> Seq<(Seq<char>, Seq<Seq<char>>)> {
    bs.map_values(|b: (String, Vec<String>)| (b.0@, strings_view(b.1@)))
}

/// The keys that the first override for action `id` gives it.
pub open spec fn override_for(ovs: Seq<(Seq<char>, Seq<Seq<char>>)>, id: Seq<char>) -> Option<Seq<Seq<char>>>
    decreases ovs.len(),
{
    if ovs.len() == 0 {
        None
    } else if ovs[0].0 == id {
        Some(ovs[0].1)
    } else {
        override_for(ovs.drop_first(), id)
    }
}

/// The default bindings with the configured keys of each action in place of
/// its defaults.
pub open spec fn overridden(defs: Seq<(Seq<char>, Seq<Seq<char>>)>, ovs: Seq<(Seq<char>, Seq<Seq<char>>)>) -> Seq<
    (Seq<char>, Seq<Seq<char>>),
> {
    defs.map_values(
        |d: (Seq<char>, Seq<Seq<char>>)|
            (
                d.0,
                match override_for(ovs, d.0) {
                    Some(k) => k,
                    None => d.1,
                },
            ),
    )
}

/// Whether some action of the defaults is named `id`.
pub open spec fn names_action(defs: Seq<(Seq<char>, Seq<Seq<char>>)>, id: Seq<char>) -> bool {
    exists|i: int| 0 <= i < defs.len() && (#[trigger] defs[i]).0 == id
}

/// The warnings for the configured actions of `mode` that name no action,
/// in order.
pub open spec fn unknown_action_warnings(
    mode: Seq<char>,
    defs: Seq<(Seq<char>, Seq<Seq<char>>)>,
    ovs: Seq<(Seq<char>, Seq<Seq<char>>)>,
) -> Seq<Seq<char>>
    decreases ovs.len(),
{
    if ovs.len() == 0 {
        Seq::empty()
    } else {
        let rest = unknown_action_warnings(mode, defs, ovs.drop_last());
        if names_action(defs, ovs.last().0) {
            rest
        } else {
            rest.push("Ignoring unknown keybinding action '"@ + mode + "."@ + ovs.last().0 + "'"@)
        }
    }
}

fn copy_keys(v: &Vec<String>) -> (r: Vec<String>)
    ensures
        strings_view(r@) == strings_view(v@),
{
    let mut r: Vec<String> = Vec::new();
    let mut i: usize = 0;
    while i < v.len()
        invariant
            i <= v.len(),
            strings_view(r@) == strings_view(v@).take(i as int),
        decreases v.len() - i,
    {
        let ghost before = r@;
        r.push(v[i].clone());
        assert(strings_view(r@) =~= strings_view(before).push(v@[i as int]@));
        assert(strings_view(v@).take(i + 1) =~= strings_view(v@).take(i as int).push(v@[i as int]@));
        i = i + 1;
    }
    assert(strings_view(v@).take(v.len() as int) =~= strings_view(v@));
    r
}

fn same_text(a: &str, b: &str) -> (r: bool)
    ensures
        r == (a@ == b@),
{
    let x = chars_of(a);
    let y = chars_of(b);
    if x.len() != y.len() {
        return false;
    }
    let mut i: usize = 0;
    while i < x.len()
        invariant
            i <= x.len(),
            x.len() == y.len(),
            x@ == a@,
            y@ == b@,
            forall|j: int| 0 <= j < i ==> x@[j] == y@[j],
        decreases x.len() - i,
    {
        if x[i] != y[i] {
            return false;
        }
        i = i + 1;
    }
    assert(x@ =~= y@);
    true
}

fn find_override(ovs: &Vec<(String, Vec<String>)>, id: &String) -> (r: Option<usize>)
    ensures
        match r {
            Some(i) => i < ovs@.len() && override_for(bindings_view(ovs@), id@) == Some(strings_view(ovs@[i as int].1@)),
            None => override_for(bindings_view(ovs@), id@) is None,
        },
{
    let ghost ov = bindings_view(ovs@);
    let mut i: usize = 0;
    assert(ov.skip(0) =~= ov);
    while i < ovs.len()
        invariant
            i <= ovs.len(),
            ov == bindings_view(ovs@),
            override_for(ov, id@) == override_for(ov.skip(i as int), id@),
        decreases ovs.len() - i,
    {
        assert(ov.skip(i as int)[0] == (ovs@[i as int].0@, strings_view(ovs@[i as int].1@)));
        assert(ov.skip(i as int).drop_first() =~= ov.skip(i + 1));
        if same_text(ovs[i].0.as_str(), id.as_str()) {
            return Some(i);
        }
        i = i + 1;
    }
    None
}

fn has_action(defs: &Vec<(String, Vec<String>)>, id: &String) -> (r: bool)
    ensures
        r == names_action(bindings_view(defs@), id@),
{
    let ghost dv = bindings_view(defs@);
    let mut i: usize = 0;
    while i < defs.len()
        invariant
            i <= defs.len(),
            dv == bindings_view(defs@),
            forall|j: int| 0 <= j < i ==> (#[trigger] dv[j]).0 != id@,
        decreases defs.len() - i,
    {
        assert(dv[i as int].0 == defs@[i as int].0@);
        if same_text(defs[i].0.as_str(), id.as_str()) {
            return true;
        }
        i = i + 1;
    }
    false
}

/// The bindings of a mode from its defaults and its configured keys: each
/// configured action's keys replace its defaults, and a configured action
/// that names no action is warned about (see [`overridden`] and
/// [`unknown_action_warnings`]).
pub fn apply_overrides(
    mode: &str,
    defaults: &Vec<(String, Vec<String>)>,
    overrides: &Vec<(String, Vec<String>)>,
    warnings: &mut Vec<String>,
) -> (r: Vec<(String, Vec<String>)>)
    ensures
        bindings_view(r@) == overridden(bindings_view(defaults@), bindings_view(overrides@)),
        strings_view(final(warnings)@) == strings_view(old(warnings)@) + unknown_action_warnings(
            mode@,
            bindings_view(defaults@),
            bindings_view(overrides@),
        ),
{
    let ghost dv = bindings_view(defaults@);
    let ghost ov = bindings_view(overrides@);
    let ghost start = strings_view(warnings@);
    let mut k: usize = 0;
    assert(ov.take(0) =~= Seq::<(Seq<char>, Seq<Seq<char>>)>::empty());
    while k < overrides.len()
        invariant
            k <= overrides.len(),
            dv == bindings_view(defaults@),
            ov == bindings_view(overrides@),
            strings_view(warnings@) == start + unknown_action_warnings(mode@, dv, ov.take(k as int)),
        decreases overrides.len() - k,
    {
        assert(ov.take(k + 1).drop_last() =~= ov.take(k as int));
        assert(ov.take(k + 1).last() == ov[k as int]);
        assert(ov[k as int].0 == overrides@[k as int].0@);
        let id = &overrides[k].0;
        if !has_action(defaults, id) {
            let m1 = concat_str("Ignoring unknown keybinding action '", mode);
            let m2 = concat_str(m1.as_str(), ".");
            let m3 = concat_str(m2.as_str(), id.as_str());
            let m4 = concat_str(m3.as_str(), "'");
            let ghost before = warnings@;
            warnings.push(m4);
            assert(strings_view(warnings@) =~= strings_view(before).push(m4@));
        }
        k = k + 1;
    }
    assert(ov.take(overrides.len() as int) =~= ov);
    let mut r: Vec<(String, Vec<String>)> = Vec::new();
    let ghost target = overridden(dv, ov);
    let mut i: usize = 0;
    while i < defaults.len()
        invariant
            i <= defaults.len(),
            dv == bindings_view(defaults@),
            ov == bindings_view(overrides@),
            target == overridden(dv, ov),
            bindings_view(r@) == target.take(i as int),
        decreases defaults.len() - i,
    {
        let (id, keys) = &defaults[i];
        assert(dv[i as int] == (id@, strings_view(keys@)));
        let chosen = match find_override(overrides, id) {
            Some(j) => copy_keys(&overrides[j].1),
            None => copy_keys(keys),
        };
        let ghost before = r@;
        r.push((id.clone(), chosen));
        assert(bindings_view(r@) =~= bindings_view(before).push(target[i as int]));
        assert(target.take(i + 1) =~= target.take(i as int).push(target[i as int]));
        i = i + 1;
    }
    assert(target.take(defaults.len() as int) =~= target);
    r
}

/// No two bound sequences conflict (see [`sequences_conflict`]).
pub open spec fn conflict_free(bs: Seq<(usize, Seq<KeyPress>)>) -> bool {
    forall|i: int, j: int|
        0 <= i < bs.len() && 0 <= j < bs.len() && i != j ==> !sequences_conflict(#[trigger] bs[i].1, #[trigger] bs[j].1)
}

proof fn lemma_exact_match_none(bs: Seq<(usize, Seq<KeyPress>)>, keys: Seq<KeyPress>)
    requires
        forall|j: int| 0 <= j < bs.len() ==> (#[trigger] bs[j]).1 != keys,
    ensures
        exact_match(bs, keys) is None,
    decreases bs.len(),
{
    if bs.len() > 0 {
        assert(bs[0].1 != keys);
        assert forall|j: int| 0 <= j < bs.drop_first().len() implies (#[trigger] bs.drop_first()[j]).1 != keys by {
            assert(bs.drop_first()[j] == bs[j + 1]);
        }
        lemma_exact_match_none(bs.drop_first(), keys);
    }
}

proof fn lemma_exact_match_unique(bs: Seq<(usize, Seq<KeyPress>)>, keys: Seq<KeyPress>, i: int)
    requires
        0 <= i < bs.len(),
        bs[i].1 == keys,
        forall|j: int| 0 <= j < bs.len() && j != i ==> (#[trigger] bs[j]).1 != keys,
    ensures
        exact_match(bs, keys) == Some(bs[i].0),
    decreases bs.len(),
{
    if i > 0 {
        assert(bs[0].1 != keys);
        assert(bs.drop_first()[i - 1] == bs[i]);
        assert forall|j: int| 0 <= j < bs.drop_first().len() && j != i - 1 implies (#[trigger] bs.drop_first()[j]).1
            != keys by {
            assert(bs.drop_first()[j] == bs[j + 1]);
        }
        lemma_exact_match_unique(bs.drop_first(), keys, i - 1);
    }
}

/// Typing a bound sequence key by key works: with its first keys waiting,
/// each further key leaves the sequence pending until the last one, which
/// gives the sequence's action; when no two bound sequences conflict and the
/// sequence's keys are in canonical form.
pub proof fn law_bound_sequence_matches(bs: Seq<(usize, Seq<KeyPress>)>, i: int, n: int)
    requires
        conflict_free(bs),
        0 <= i < bs.len(),
        0 < n <= bs[i].1.len(),
        forall|k: int| 0 <= k < bs[i].1.len() ==> canonical_spec(#[trigger] bs[i].1[k]) == bs[i].1[k],
    ensures
        press_spec(bs, bs[i].1.take(n - 1), bs[i].1[n - 1]) == (if n < bs[i].1.len() {
            (Dispatch::Pending, bs[i].1.take(n))
        } else {
            (Dispatch::Matched { action: bs[i].0 }, Seq::<KeyPress>::empty())
        }),
{
    let s = bs[i].1;
    let t = s.take(n);
    assert(s.take(n - 1).push(s[n - 1]) =~= t);
    assert(canonical_spec(s[n - 1]) == s[n - 1]);
    if n < s.len() {
        assert forall|j: int| 0 <= j < bs.len() implies (#[trigger] bs[j]).1 != t by {
            if j != i {
                assert(!sequences_conflict(bs[i].1, bs[j].1));
                if bs[j].1 == t {
                    assert(s.take(t.len() as int) == t);
                    assert(starts_with(s, bs[j].1));
                }
            } else {
                assert(t.len() < s.len());
            }
        }
        lemma_exact_match_none(bs, t);
        assert(n < bs[i].1.len() && bs[i].1.take(n) == t);
        assert(begins_longer(bs, t));
    } else {
        assert(t =~= s);
        assert forall|j: int| 0 <= j < bs.len() && j != i implies (#[trigger] bs[j]).1 != t by {
            assert(!sequences_conflict(bs[i].1, bs[j].1));
        }
        lemma_exact_match_unique(bs, t, i);
    }
}

} // verus!
