//! Host-side stage timing. A disabled profile is a bare pass-through: it
//! records nothing. An enabled one keeps, per stage name, the accumulated
//! wall time and the number of timed calls, listed in name order.
use vstd::prelude::*;
use std::time::Duration;
use std::time::Instant;
use vstd::string::StringSliceAdditionalSpecFns;
use crate::order::{bytes_lt, compare_bytes, ByteOrder, lemma_lt_irreflexive, lemma_lt_transitive};

verus! {

/// The largest span a `Duration` can hold, in nanoseconds
/// (`u64::MAX` seconds and 999,999,999 nanoseconds).
pub const MAX_DURATION_NANOS: u128 = 18446744073709551615999999999u128;

#[verifier::external_type_specification]
#[verifier::external_body]
pub struct ExInstant(Instant);

/// `std::time::Instant::now`: the current instant of the monotonic clock.
/// Nothing is claimed of the value.
#[verifier::external_body]
fn instant_now() -> Instant {
    Instant::now()
}

/// `std::time::Instant::elapsed`: the time passed since `t`. Nothing is
/// claimed of the value (it depends on the clock).
#[verifier::external_body]
fn instant_elapsed(t: &Instant) -> Duration {
    t.elapsed()
}

/// `std::time::Duration::as_nanos`: the whole span in nanoseconds. Claimed:
/// the value lies within the range a `Duration` can hold.
#[verifier::external_body]
fn duration_as_nanos(d: &Duration) -> (r: u128)
    ensures
        r <= MAX_DURATION_NANOS,
{
    d.as_nanos()
}

/// The accumulated time and call count of one named stage.
#[derive(Clone, Copy, Debug)]
pub struct StageTotal {
    pub name: &'static str,
    pub nanos: u128,
    pub count: u32,
}

/// The key a stage is filed under: the bytes of its name.
pub open spec fn stage_key(e: StageTotal) -> Seq<u8> {
    e.name.spec_bytes()
}

/// Stage `i` of `s` is filed under `k`.
pub open spec fn keyed_at(s: Seq<StageTotal>, i: int, k: Seq<u8>) -> bool {
    0 <= i < s.len() && stage_key(s[i]) == k
}

/// The stages of `s` are in strictly increasing name order.
pub open spec fn sorted_stages(s: Seq<StageTotal>) -> bool {
    forall|i: int, j: int|
        0 <= i < j < s.len() ==> bytes_lt(#[trigger] stage_key(s[i]), #[trigger] stage_key(s[j]))
}

/// The totals listed in `s`, by stage key: (nanoseconds, calls).
pub open spec fn totals_of(s: Seq<StageTotal>) -> Map<Seq<u8>, (u128, u32)> {
    Map::new(
        |k: Seq<u8>| exists|i: int| keyed_at(s, i, k),
        |k: Seq<u8>|
            {
                let i = choose|i: int| keyed_at(s, i, k);
                (s[i].nanos, s[i].count)
            },
    )
}

/// The accumulated nanoseconds of stage `k` in `m` (0 if it never ran).
pub open spec fn nanos_in(m: Map<Seq<u8>, (u128, u32)>, k: Seq<u8>) -> int {
    if m.contains_key(k) {
        m[k].0 as int
    } else {
        0
    }
}

/// The call count of stage `k` in `m` (0 if it never ran).
pub open spec fn count_in(m: Map<Seq<u8>, (u128, u32)>, k: Seq<u8>) -> int {
    if m.contains_key(k) {
        m[k].1 as int
    } else {
        0
    }
}

/// The call count after one more call, wrapping at `u32` as the counter does.
pub open spec fn next_count(c: int) -> u32 {
    ((c + 1) % 0x1_0000_0000) as u32
}

/// The totals `m` after one more call of stage `k` that took `d`
/// nanoseconds.
pub open spec fn recorded(m: Map<Seq<u8>, (u128, u32)>, k: Seq<u8>, d: int) -> Map<
    Seq<u8>,
    (u128, u32),
> {
    m.insert(k, ((nanos_in(m, k) + d) as u128, next_count(count_in(m, k))))
}

/// Calls accumulate per stage: two calls of stage `k` taking `a` and `b`
/// nanoseconds leave the same totals as one stage total of `a + b` over
/// two more calls, and no other stage changes.
pub proof fn lemma_calls_accumulate(m: Map<Seq<u8>, (u128, u32)>, k: Seq<u8>, a: int, b: int)
    requires
        0 <= a,
        0 <= b,
        nanos_in(m, k) + a + b <= MAX_DURATION_NANOS,
    ensures
        recorded(recorded(m, k, a), k, b) == m.insert(
            k,
            ((nanos_in(m, k) + a + b) as u128, ((count_in(m, k) + 2) % 0x1_0000_0000) as u32),
        ),
        forall|j: Seq<u8>|
            j != k ==> (#[trigger] recorded(m, k, a).contains_key(j) == m.contains_key(j) && (
            m.contains_key(j) ==> recorded(m, k, a)[j] == m[j])),
{
    let m1 = recorded(m, k, a);
    assert(nanos_in(m1, k) == nanos_in(m, k) + a);
    assert(count_in(m1, k) == (count_in(m, k) + 1) % 0x1_0000_0000);
    assert(((count_in(m, k) + 1) % 0x1_0000_0000 + 1) % 0x1_0000_0000 == (count_in(m, k) + 2)
        % 0x1_0000_0000) by (nonlinear_arith)
        requires
            0 <= count_in(m, k),
    ;
    assert(recorded(m1, k, b) =~= m.insert(
        k,
        ((nanos_in(m, k) + a + b) as u128, ((count_in(m, k) + 2) % 0x1_0000_0000) as u32),
    ));
}

/// The totals after the calls `calls`, in order, starting from `m`: each
/// call is a stage key and the nanoseconds it took.
pub open spec fn replay(m: Map<Seq<u8>, (u128, u32)>, calls: Seq<(Seq<u8>, int)>) -> Map<
    Seq<u8>,
    (u128, u32),
>
    decreases calls.len(),
{
    if calls.len() == 0 {
        m
    } else {
        recorded(replay(m, calls.drop_last()), calls.last().0, calls.last().1)
    }
}

/// The nanoseconds of all calls of stage `k` in `calls`.
pub open spec fn stage_nanos(calls: Seq<(Seq<u8>, int)>, k: Seq<u8>) -> int
    decreases calls.len(),
{
    if calls.len() == 0 {
        0
    } else {
        stage_nanos(calls.drop_last(), k) + if calls.last().0 == k {
            calls.last().1
        } else {
            0
        }
    }
}

/// The number of calls of stage `k` in `calls`.
pub open spec fn stage_calls(calls: Seq<(Seq<u8>, int)>, k: Seq<u8>) -> int
    decreases calls.len(),
{
    if calls.len() == 0 {
        0
    } else {
        stage_calls(calls.drop_last(), k) + if calls.last().0 == k {
            1int
        } else {
            0
        }
    }
}

proof fn lemma_stage_calls_named(calls: Seq<(Seq<u8>, int)>, k: Seq<u8>)
    ensures
        stage_calls(calls, k) >= 0,
        stage_calls(calls, k) > 0 <==> exists|i: int| 0 <= i < calls.len() && calls[i].0 == k,
    decreases calls.len(),
{
    if calls.len() > 0 {
        let p = calls.drop_last();
        lemma_stage_calls_named(p, k);
        if exists|i: int| 0 <= i < p.len() && p[i].0 == k {
            let i = choose|i: int| 0 <= i < p.len() && p[i].0 == k;
            assert(calls[i].0 == k);
        }
        if exists|i: int| 0 <= i < calls.len() && calls[i].0 == k {
            let i = choose|i: int| 0 <= i < calls.len() && calls[i].0 == k;
            if i < p.len() {
                assert(p[i].0 == k);
            }
        }
    }
}

proof fn lemma_stage_nanos_grows(calls: Seq<(Seq<u8>, int)>, k: Seq<u8>)
    requires
        forall|i: int| 0 <= i < calls.len() ==> calls[i].1 >= 0,
    ensures
        0 <= stage_nanos(calls.drop_last(), k) <= stage_nanos(calls, k) || calls.len() == 0,
        stage_nanos(calls, k) >= 0,
    decreases calls.len(),
{
    if calls.len() > 0 {
        let p = calls.drop_last();
        assert forall|i: int| 0 <= i < p.len() implies p[i].1 >= 0 by {
            assert(p[i] == calls[i]);
        }
        lemma_stage_nanos_grows(p, k);
        assert(calls[calls.len() - 1].1 >= 0);
    }
}

proof fn lemma_replay_tracks(calls: Seq<(Seq<u8>, int)>)
    requires
        forall|i: int| 0 <= i < calls.len() ==> calls[i].1 >= 0,
        forall|k: Seq<u8>| #[trigger] stage_nanos(calls, k) <= MAX_DURATION_NANOS,
    ensures
        forall|k: Seq<u8>|
            #[trigger] replay(Map::empty(), calls).contains_key(k) <==> stage_calls(calls, k) > 0,
        forall|k: Seq<u8>|
            #[trigger] nanos_in(replay(Map::empty(), calls), k) == stage_nanos(calls, k),
        forall|k: Seq<u8>|
            #[trigger] count_in(replay(Map::empty(), calls), k) == stage_calls(calls, k)
                % 0x1_0000_0000,
    decreases calls.len(),
{
    if calls.len() > 0 {
        let p = calls.drop_last();
        assert forall|i: int| 0 <= i < p.len() implies p[i].1 >= 0 by {
            assert(p[i] == calls[i]);
        }
        assert forall|k: Seq<u8>| #[trigger] stage_nanos(p, k) <= MAX_DURATION_NANOS by {
            lemma_stage_nanos_grows(calls, k);
            assert(stage_nanos(calls, k) <= MAX_DURATION_NANOS);
        }
        lemma_replay_tracks(p);
        let m = replay(Map::empty(), p);
        let (k0, d) = calls.last();
        assert(calls.last().1 >= 0);
        let r = replay(Map::empty(), calls);
        assert(r == recorded(m, k0, d));
        assert(nanos_in(m, k0) == stage_nanos(p, k0));
        assert(stage_nanos(calls, k0) == stage_nanos(p, k0) + d);
        assert(stage_nanos(calls, k0) <= MAX_DURATION_NANOS);
        assert forall|k: Seq<u8>| #[trigger] r.contains_key(k) <==> stage_calls(calls, k) > 0 by {
            lemma_stage_calls_named(p, k);
            assert(m.contains_key(k) <==> stage_calls(p, k) > 0);
        }
        assert forall|k: Seq<u8>| #[trigger] nanos_in(r, k) == stage_nanos(calls, k) by {
            assert(nanos_in(m, k) == stage_nanos(p, k));
        }
        assert forall|k: Seq<u8>| #[trigger] count_in(r, k) == stage_calls(calls, k)
            % 0x1_0000_0000 by {
            assert(count_in(m, k) == stage_calls(p, k) % 0x1_0000_0000);
            if k == k0 {
                lemma_stage_calls_named(p, k);
                vstd::arithmetic::div_mod::lemma_add_mod_noop(
                    stage_calls(p, k),
                    1,
                    0x1_0000_0000,
                );
                assert(1int % 0x1_0000_0000 == 1);
                assert(stage_calls(p, k) % 0x1_0000_0000 >= 0);
                assert(stage_calls(p, k) % 0x1_0000_0000 < 0x1_0000_0000);
                assert(count_in(r, k) == (stage_calls(p, k) % 0x1_0000_0000 + 1)
                    % 0x1_0000_0000);
            }
        }
    }
}

/// Totals are the sums of the calls: after any sequence of calls of
/// `add`/`time` on an enabled profile that starts empty (each call taking
/// a non-negative number of nanoseconds, and no stage's total going beyond
/// the largest span a `Duration` can hold), the recorded stages are exactly
/// the distinct names called, each stage's total is the sum of its calls'
/// nanoseconds, and its count is its number of calls (wrapping at 2^32, so
/// at least 1 while a stage has fewer than 2^32 calls).
pub proof fn lemma_totals_are_sums(calls: Seq<(Seq<u8>, int)>)
    requires
        forall|i: int| 0 <= i < calls.len() ==> calls[i].1 >= 0,
        forall|k: Seq<u8>| #[trigger] stage_nanos(calls, k) <= MAX_DURATION_NANOS,
    ensures
        forall|k: Seq<u8>|
            #[trigger] replay(Map::empty(), calls).contains_key(k) <==> exists|i: int|
                0 <= i < calls.len() && calls[i].0 == k,
        forall|k: Seq<u8>|
            #[trigger] replay(Map::empty(), calls).contains_key(k) ==> replay(
                Map::empty(),
                calls,
            )[k] == (
                stage_nanos(calls, k) as u128,
                (stage_calls(calls, k) % 0x1_0000_0000) as u32,
            ),
        forall|k: Seq<u8>|
            #[trigger] replay(Map::empty(), calls).contains_key(k) && stage_calls(calls, k)
                < 0x1_0000_0000 ==> replay(Map::empty(), calls)[k].1 == stage_calls(calls, k)
                && replay(Map::empty(), calls)[k].1 >= 1,
{
    lemma_replay_tracks(calls);
    let r = replay(Map::empty(), calls);
    assert forall|k: Seq<u8>| #[trigger] r.contains_key(k) <==> exists|i: int|
        0 <= i < calls.len() && calls[i].0 == k by {
        lemma_stage_calls_named(calls, k);
    }
    assert forall|k: Seq<u8>| #[trigger] r.contains_key(k) implies r[k] == (
        stage_nanos(calls, k) as u128,
        (stage_calls(calls, k) % 0x1_0000_0000) as u32,
    ) by {
        assert(nanos_in(r, k) == stage_nanos(calls, k));
        assert(count_in(r, k) == stage_calls(calls, k) % 0x1_0000_0000);
    }
    assert forall|k: Seq<u8>| #[trigger] r.contains_key(k) && stage_calls(calls, k)
        < 0x1_0000_0000 implies r[k].1 == stage_calls(calls, k) && r[k].1 >= 1 by {
        assert(count_in(r, k) == stage_calls(calls, k) % 0x1_0000_0000);
        assert(stage_calls(calls, k) > 0);
        vstd::arithmetic::div_mod::lemma_small_mod(
            stage_calls(calls, k) as nat,
            0x1_0000_0000nat,
        );
    }
}

/// The sum of the accumulated nanoseconds of all stages in `s`.
pub open spec fn sum_nanos(s: Seq<StageTotal>) -> int
    decreases s.len(),
{
    if s.len() == 0 {
        0
    } else {
        sum_nanos(s.drop_last()) + s.last().nanos
    }
}

proof fn lemma_sorted_distinct(s: Seq<StageTotal>, i: int, j: int)
    requires
        sorted_stages(s),
        0 <= i < s.len(),
        0 <= j < s.len(),
        i != j,
    ensures
        stage_key(s[i]) != stage_key(s[j]),
{
    if i < j {
        assert(bytes_lt(stage_key(s[i]), stage_key(s[j])));
        lemma_lt_irreflexive(stage_key(s[i]));
    } else {
        assert(bytes_lt(stage_key(s[j]), stage_key(s[i])));
        lemma_lt_irreflexive(stage_key(s[j]));
    }
}

proof fn lemma_totals_at(s: Seq<StageTotal>, i: int)
    requires
        sorted_stages(s),
        0 <= i < s.len(),
    ensures
        totals_of(s).contains_key(stage_key(s[i])),
        totals_of(s)[stage_key(s[i])] == (s[i].nanos, s[i].count),
{
    let k = stage_key(s[i]);
    assert(keyed_at(s, i, k));
    let c = choose|c: int| keyed_at(s, c, k);
    if c != i {
        lemma_sorted_distinct(s, c, i);
    }
}

proof fn lemma_totals_update(s: Seq<StageTotal>, i: int, e: StageTotal)
    requires
        sorted_stages(s),
        0 <= i < s.len(),
        stage_key(e) == stage_key(s[i]),
    ensures
        sorted_stages(s.update(i, e)),
        totals_of(s.update(i, e)) == totals_of(s).insert(stage_key(e), (e.nanos, e.count)),
{
    let t = s.update(i, e);
    assert forall|a: int, b: int| 0 <= a < b < t.len() implies bytes_lt(
        #[trigger] stage_key(t[a]),
        #[trigger] stage_key(t[b]),
    ) by {
        assert(bytes_lt(stage_key(s[a]), stage_key(s[b])));
    }
    let m = totals_of(s).insert(stage_key(e), (e.nanos, e.count));
    assert forall|k: Seq<u8>| #[trigger] totals_of(t).contains_key(k) <==> m.contains_key(k) by {
        if k == stage_key(e) {
            assert(keyed_at(t, i, k));
        }
        if m.contains_key(k) && k != stage_key(e) {
            let c = choose|c: int| keyed_at(s, c, k);
            assert(keyed_at(t, c, k));
        }
        if totals_of(t).contains_key(k) {
            let c = choose|c: int| keyed_at(t, c, k);
            if c != i {
                assert(keyed_at(s, c, k));
            }
        }
    }
    assert forall|k: Seq<u8>| #[trigger] totals_of(t).contains_key(k) implies totals_of(t)[k]
        == m[k] by {
        let c = choose|c: int| keyed_at(t, c, k);
        lemma_totals_at(t, c);
        if c != i {
            lemma_totals_at(s, c);
            lemma_sorted_distinct(s, c, i);
        }
    }
    assert(totals_of(t) =~= m);
}

proof fn lemma_totals_insert(s: Seq<StageTotal>, p: int, e: StageTotal)
    requires
        sorted_stages(s),
        0 <= p <= s.len(),
        forall|j: int| 0 <= j < p ==> bytes_lt(#[trigger] stage_key(s[j]), stage_key(e)),
        forall|j: int| p <= j < s.len() ==> bytes_lt(stage_key(e), #[trigger] stage_key(s[j])),
    ensures
        sorted_stages(s.insert(p, e)),
        !totals_of(s).contains_key(stage_key(e)),
        totals_of(s.insert(p, e)) == totals_of(s).insert(stage_key(e), (e.nanos, e.count)),
{
    let t = s.insert(p, e);
    let ke = stage_key(e);
    assert forall|a: int, b: int| 0 <= a < b < t.len() implies bytes_lt(
        #[trigger] stage_key(t[a]),
        #[trigger] stage_key(t[b]),
    ) by {
        if b < p {
            assert(bytes_lt(stage_key(s[a]), stage_key(s[b])));
        } else if b == p {
        } else if a < p {
            assert(bytes_lt(stage_key(s[a]), ke));
            assert(bytes_lt(ke, stage_key(s[b - 1])));
            lemma_lt_transitive(stage_key(s[a]), ke, stage_key(s[b - 1]));
        } else if a == p {
        } else {
            assert(bytes_lt(stage_key(s[a - 1]), stage_key(s[b - 1])));
        }
    }
    if totals_of(s).contains_key(ke) {
        let c = choose|c: int| keyed_at(s, c, ke);
        lemma_lt_irreflexive(ke);
        if c < p {
            assert(bytes_lt(stage_key(s[c]), ke));
        } else {
            assert(bytes_lt(ke, stage_key(s[c])));
        }
    }
    let m = totals_of(s).insert(ke, (e.nanos, e.count));
    assert forall|k: Seq<u8>| #[trigger] totals_of(t).contains_key(k) <==> m.contains_key(k) by {
        if m.contains_key(k) {
            if k == ke {
                assert(keyed_at(t, p, k));
            } else {
                let c = choose|c: int| keyed_at(s, c, k);
                if c < p {
                    assert(keyed_at(t, c, k));
                } else {
                    assert(keyed_at(t, c + 1, k));
                }
            }
        }
        if totals_of(t).contains_key(k) {
            let c = choose|c: int| keyed_at(t, c, k);
            if c < p {
                assert(keyed_at(s, c, k));
            } else if c > p {
                assert(keyed_at(s, c - 1, k));
            }
        }
    }
    assert forall|k: Seq<u8>| #[trigger] totals_of(t).contains_key(k) implies totals_of(t)[k]
        == m[k] by {
        let c = choose|c: int| keyed_at(t, c, k);
        lemma_totals_at(t, c);
        if c < p {
            lemma_totals_at(s, c);
        } else if c > p {
            lemma_totals_at(s, c - 1);
        }
    }
    assert(totals_of(t) =~= m);
}

/// Per-stage wall-time accounting. When disabled every operation leaves it
/// untouched; when enabled each timed call adds its elapsed time and one
/// call to the stage it names.
pub struct Profile {
    on: bool,
    stages: Vec<StageTotal>,
}

impl Profile {
    #[verifier::type_invariant]
    spec fn well_formed(self) -> bool {
        sorted_stages(self.stages@)
    }

    /// Whether the profile records anything.
    pub closed spec fn is_on(self) -> bool {
        self.on
    }

    /// The recorded totals, by stage name bytes: (nanoseconds, calls).
    pub closed spec fn totals(self) -> Map<Seq<u8>, (u128, u32)> {
        totals_of(self.stages@)
    }

    /// The recorded stages in increasing name order.
    pub closed spec fn listing(self) -> Seq<StageTotal> {
        self.stages@
    }

    /// A profile that records when `on` is set and is a pass-through
    /// otherwise; it starts with no stages.
    pub fn enabled(on: bool) -> (r: Self)
        ensures
            r.is_on() == on,
            r.totals() == Map::<Seq<u8>, (u128, u32)>::empty(),
    {
        let r = Profile { on, stages: Vec::new() };
        assert(r.totals() =~= Map::<Seq<u8>, (u128, u32)>::empty());
        r
    }

    /// Whether this profile records anything.
    pub fn is_enabled(&self) -> (r: bool)
        ensures
            r == self.is_on(),
    {
        self.on
    }

    fn accumulate(&mut self, name: &'static str, nanos: u128, saturate: bool)
        requires
            old(self).is_on(),
            nanos <= MAX_DURATION_NANOS,
            saturate || nanos_in(old(self).totals(), name.spec_bytes()) + nanos
                <= MAX_DURATION_NANOS,
        ensures
            final(self).is_on(),
            final(self).totals() == old(self).totals().insert(
                name.spec_bytes(),
                (
                    if nanos_in(old(self).totals(), name.spec_bytes()) + nanos
                        <= MAX_DURATION_NANOS {
                        (nanos_in(old(self).totals(), name.spec_bytes()) + nanos) as u128
                    } else {
                        MAX_DURATION_NANOS
                    },
                    next_count(count_in(old(self).totals(), name.spec_bytes())),
                ),
            ),
    {
        proof {
            use_type_invariant(&*self);
        }
        let key = name.as_bytes();
        let ghost k = name.spec_bytes();
        let mut st: Vec<StageTotal> = Vec::new();
        std::mem::swap(&mut st, &mut self.stages);
        let mut i: usize = 0;
        while i < st.len()
            invariant
                self.on,
                self.stages@.len() == 0,
                sorted_stages(st@),
                key@ == k,
                k == name.spec_bytes(),
                nanos <= MAX_DURATION_NANOS,
                saturate || nanos_in(old(self).totals(), k) + nanos <= MAX_DURATION_NANOS,
                old(self).totals() == totals_of(st@),
                st@ == old(self).stages@,
                i <= st@.len(),
                forall|j: int| 0 <= j < i ==> bytes_lt(#[trigger] stage_key(st@[j]), k),
            decreases st@.len() - i,
        {
            let e = st[i];
            let eb = e.name.as_bytes();
            let o = compare_bytes(eb, key);
            assert(eb@ == stage_key(st@[i as int]));
            match o {
                ByteOrder::Equal => {
                    assert(eb@ == key@);
                    proof {
                        lemma_totals_at(st@, i as int);
                    }
                    let sum: u128 = if e.nanos <= MAX_DURATION_NANOS - nanos {
                        e.nanos + nanos
                    } else {
                        MAX_DURATION_NANOS
                    };
                    let count = e.count.wrapping_add(1);
                    let ne = StageTotal { name, nanos: sum, count };
                    proof {
                        lemma_totals_update(st@, i as int, ne);
                    }
                    st.set(i, ne);
                    self.stages = st;
                    return;
                },
                ByteOrder::Greater => {
                    let ne = StageTotal {
                        name,
                        nanos,
                        count: 1,
                    };
                    proof {
                        assert forall|j: int| i <= j < st@.len() implies bytes_lt(
                            k,
                            #[trigger] stage_key(st@[j]),
                        ) by {
                            if j > i {
                                lemma_lt_transitive(k, stage_key(e), stage_key(st@[j]));
                            }
                        }
                        lemma_totals_insert(st@, i as int, ne);
                    }
                    st.insert(i, ne);
                    self.stages = st;
                    return;
                },
                ByteOrder::Less => {},
            }
            i = i + 1;
        }
        let ne = StageTotal {
            name,
            nanos,
            count: 1,
        };
        proof {
            lemma_totals_insert(st@, i as int, ne);
        }
        st.push(ne);
        proof {
            assert(st@ =~= old(self).stages@.insert(i as int, ne));
        }
        self.stages = st;
    }

    /// Adds `nanos` nanoseconds and one call to stage `name` when enabled;
    /// does nothing when disabled. The stage's total must stay within the
    /// span a `Duration` can hold; the call count wraps at `u32::MAX`.
    pub fn add(&mut self, name: &'static str, nanos: u128)
        requires
            old(self).is_on() ==> nanos_in(old(self).totals(), name.spec_bytes()) + nanos
                <= MAX_DURATION_NANOS,
        ensures
            final(self).is_on() == old(self).is_on(),
            !old(self).is_on() ==> final(self).totals() == old(self).totals(),
            old(self).is_on() ==> final(self).totals() == recorded(
                old(self).totals(),
                name.spec_bytes(),
                nanos as int,
            ),
    {
        if !self.on {
            return;
        }
        self.accumulate(name, nanos, false);
    }

    /// Runs `f` and returns its result. When enabled, the wall time `f`
    /// took is added to stage `name` together with one call (the total
    /// stops at the largest span a `Duration` can hold); when disabled this
    /// is a bare pass-through that records nothing.
    pub fn time<T>(&mut self, name: &'static str, f: impl FnOnce() -> T) -> (r: T)
        requires
            f.requires(()),
        ensures
            f.ensures((), r),
            final(self).is_on() == old(self).is_on(),
            !old(self).is_on() ==> final(self).totals() == old(self).totals(),
            old(self).is_on() ==> exists|e: int|
                #![trigger nanos_in(old(self).totals(), name.spec_bytes()) + e]
                0 <= e <= MAX_DURATION_NANOS && final(self).totals() == old(self).totals().insert(
                    name.spec_bytes(),
                    (
                        if nanos_in(old(self).totals(), name.spec_bytes()) + e
                            <= MAX_DURATION_NANOS {
                            (nanos_in(old(self).totals(), name.spec_bytes()) + e) as u128
                        } else {
                            MAX_DURATION_NANOS
                        },
                        next_count(count_in(old(self).totals(), name.spec_bytes())),
                    ),
                ),
    {
        if !self.on {
            return f();
        }
        let t = instant_now();
        let r = f();
        let d = instant_elapsed(&t);
        let nanos = duration_as_nanos(&d);
        self.accumulate(name, nanos, true);
        proof {
            let e = nanos as int;
            assert(nanos_in(old(self).totals(), name.spec_bytes()) + e == nanos_in(
                old(self).totals(),
                name.spec_bytes(),
            ) + e);
        }
        r
    }

    /// The recorded stages in increasing name order, each with its total
    /// nanoseconds and call count.
    pub fn stages(&self) -> (r: &[StageTotal])
        ensures
            r@ == self.listing(),
            sorted_stages(r@),
            totals_of(r@) == self.totals(),
    {
        proof {
            use_type_invariant(self);
        }
        self.stages.as_slice()
    }

    /// The sum of all recorded stage totals in nanoseconds, or `None` when
    /// it exceeds the span a `Duration` can hold.
    pub fn total_nanos(&self) -> (r: Option<u128>)
        ensures
            r matches Some(t) ==> t == sum_nanos(self.listing()),
            r is None <==> sum_nanos(self.listing()) > MAX_DURATION_NANOS,
    {
        let mut sum: u128 = 0;
        let mut i: usize = 0;
        while i < self.stages.len()
            invariant
                i <= self.stages@.len(),
                sum == sum_nanos(self.stages@.subrange(0, i as int)),
                sum <= MAX_DURATION_NANOS,
            decreases self.stages@.len() - i,
        {
            let ghost pre = self.stages@.subrange(0, i as int);
            assert(self.stages@.subrange(0, i + 1).drop_last() =~= pre);
            let d = self.stages[i].nanos;
            if d > MAX_DURATION_NANOS - sum {
                proof {
                    lemma_sum_prefix_monotone(self.stages@, i + 1);
                }
                return None;
            }
            sum = sum + d;
            i = i + 1;
        }
        assert(self.stages@.subrange(0, i as int) =~= self.stages@);
        Some(sum)
    }
}

proof fn lemma_sum_prefix_monotone(s: Seq<StageTotal>, p: int)
    requires
        0 <= p <= s.len(),
    ensures
        sum_nanos(s.subrange(0, p)) <= sum_nanos(s),
    decreases s.len() - p,
{
    if p < s.len() {
        lemma_sum_prefix_monotone(s, p + 1);
        assert(s.subrange(0, p + 1).drop_last() =~= s.subrange(0, p));
    } else {
        assert(s.subrange(0, p) =~= s);
    }
}

impl Default for Profile {
    /// A disabled profile with no stages.
    fn default() -> (r: Self)
        ensures
            !r.is_on(),
            r.totals() == Map::<Seq<u8>, (u128, u32)>::empty(),
    {
        Profile::enabled(false)
    }
}

} // verus!
