//! A relay of services in a circle: every node reads the channel of the node before it and
//! publishes its own, and a token goes round. Node 0 counts the laps and ends the relay.
use vstd::prelude::*;

use crate::text;

verus! {

/// The key of the relay's channels.
pub const KEY: &'static str = "ring-bench-key";

/// The schema of the token.
pub const SCHEMA: &'static str = r#"{
  "type": "record",
  "name": "BenchToken",
  "namespace": "ring.bench",
  "fields": [
    {"name": "lap", "type": "long"},
    {"name": "start_nanos", "type": "long"},
    {"name": "elapsed_ns", "type": "long"},
    {"name": "stop", "type": "boolean"}
  ]
}"#;

/// The name of a node and of its channel.
pub open spec fn name_of(index: nat) -> Seq<char> {
    "bench-"@ + text::decimal(index)
}

/// The name of a node and of its channel.
pub fn node_name(index: usize) -> (r: String)
    ensures
        r@ == name_of(index as nat),
{
    let mut s: String = "bench-".to_owned();
    s.append(text::decimal_string(index as u64).as_str());
    s
}

/// The node before a node of `n`.
pub fn predecessor(index: usize, n: usize) -> (r: usize)
    requires
        index < n,
    ensures
        r < n,
        r == (index + n - 1) % (n as int),
{
    if index == 0 {
        assert((n - 1) % (n as int) == n - 1) by (nonlinear_arith)
            requires
                n > 0,
        ;
        n - 1
    } else {
        assert((index + n - 1) % (n as int) == index - 1) by (nonlinear_arith)
            requires
                0 < index < n,
        ;
        index - 1
    }
}

/// A name is among some names.
pub open spec fn among(names: Seq<String>, name: Seq<char>) -> bool {
    exists|i: int| 0 <= i < names.len() && (#[trigger] names[i])@ == name
}

/// Whether a name is among some names.
pub fn has_name(names: &Vec<String>, name: &str) -> (r: bool)
    ensures
        r == among(names@, name@),
{
    let mut i: usize = 0;
    while i < names.len()
        invariant
            i <= names@.len(),
            forall|j: int| 0 <= j < i ==> (#[trigger] names@[j])@ != name@,
        decreases names@.len() - i,
    {
        if text::same_text(names[i].as_str(), name) {
            return true;
        }
        i = i + 1;
    }
    false
}

/// Whether the channels of all `n` nodes are among the channels on the bus.
pub fn all_up(channels: &Vec<String>, n: usize) -> (r: bool)
    ensures
        r == (forall|k: int| 0 <= k < n ==> among(channels@, #[trigger] name_of(k as nat))),
{
    let mut i: usize = 0;
    while i < n
        invariant
            i <= n,
            forall|k: int| 0 <= k < i ==> among(channels@, #[trigger] name_of(k as nat)),
        decreases n - i,
    {
        let name: String = node_name(i);
        if !has_name(channels, name.as_str()) {
            let ghost k = i as int;
            assert(!among(channels@, name_of(k as nat)));
            return false;
        }
        i = i + 1;
    }
    true
}

/// What node 0 does with a token.
#[derive(Clone, Copy, Debug, PartialEq, Eq, Structural)]
pub enum Lap {
    /// Send it round again.
    Relay { lap: i64 },
    /// Send it round to end the relay.
    Stop { lap: i64 },
}

/// What node 0 does with a token that came round.
pub open spec fn next_lap(lap: i64, laps: i64) -> Lap {
    if lap + 1 >= laps {
        Lap::Stop { lap: (lap + 1) as i64 }
    } else {
        Lap::Relay { lap: (lap + 1) as i64 }
    }
}

/// What node 0 does with a token that came round.
pub fn on_token(lap: i64, laps: i64) -> (r: Lap)
    requires
        lap < i64::MAX,
    ensures
        r == next_lap(lap, laps),
{
    let next: i64 = lap + 1;
    if next >= laps {
        Lap::Stop { lap: next }
    } else {
        Lap::Relay { lap: next }
    }
}

/// The time for one lap and for one hop, in nanoseconds.
pub fn per_lap(elapsed_ns: u64, laps: u64, n: u64) -> (r: (u64, u64))
    requires
        laps > 0,
        n > 0,
        laps * n <= u64::MAX,
    ensures
        r.0 as int == elapsed_ns as int / laps as int,
        r.1 as int == elapsed_ns as int / (laps * n),
{
    assert(laps * n > 0) by (nonlinear_arith)
        requires
            laps > 0,
            n > 0,
    ;
    let hops: u64 = laps * n;
    (elapsed_ns / laps, elapsed_ns / hops)
}

/// Every node has one node before it: the nodes form one circle.
pub proof fn law_circle(a: int, b: int, n: int)
    requires
        0 <= a < n,
        0 <= b < n,
        (a + n - 1) % n == (b + n - 1) % n,
    ensures
        a == b,
{
    assert(a == b) by (nonlinear_arith)
        requires
            0 <= a < n,
            0 <= b < n,
            (a + n - 1) % n == (b + n - 1) % n,
    {
        if a > 0 {
            assert((a + n - 1) % n == a - 1);
        } else {
            assert((a + n - 1) % n == n - 1);
        }
        if b > 0 {
            assert((b + n - 1) % n == b - 1);
        } else {
            assert((b + n - 1) % n == n - 1);
        }
    }
}

/// The lap that a token is in once it came round `times` times from lap 0, `None` once it was
/// stopped before.
pub open spec fn after_rounds(laps: i64, times: nat) -> Option<Lap>
    decreases times,
{
    if times == 0 {
        Some(Lap::Relay { lap: 0 })
    } else {
        match after_rounds(laps, (times - 1) as nat) {
            Some(Lap::Relay { lap }) => Some(next_lap(lap, laps)),
            _ => None,
        }
    }
}

/// The relay ends as the token came round for the last lap that was asked for, and not before.
pub proof fn law_relay_ends_with_last_lap(laps: i64, times: nat)
    requires
        laps > 0,
        times <= laps,
    ensures
        after_rounds(laps, times) == Some(
            if times < laps {
                Lap::Relay { lap: times as i64 }
            } else {
                Lap::Stop { lap: laps }
            },
        ),
    decreases times,
{
    if times > 0 {
        law_relay_ends_with_last_lap(laps, (times - 1) as nat);
    }
}

/// Going to the node before leads from every node to the one that comes before it, and from the
/// first to the last.
pub proof fn law_predecessor(index: usize, n: usize, r: usize)
    requires
        index < n,
        call_ensures(predecessor, (index, n), r),
    ensures
        index > 0 ==> r == index - 1,
        index == 0 ==> r == n - 1,
{
    assert(index > 0 ==> (index + n - 1) % (n as int) == index - 1) by (nonlinear_arith)
        requires
            0 <= index < n,
    ;
    assert((n - 1) % (n as int) == n - 1) by (nonlinear_arith)
        requires
            n > 0,
    ;
}

/// Every node has a name of its own, with its number in it.
pub proof fn law_node_names(a: usize, b: usize, na: String, nb: String)
    requires
        call_ensures(node_name, (a,), na),
        call_ensures(node_name, (b,), nb),
    ensures
        na@ == "bench-"@ + text::decimal(a as nat),
        na@ == nb@ <==> a == b,
{
    if na@ == nb@ {
        let p = "bench-"@;
        assert(text::decimal(a as nat) =~= na@.skip(p.len() as int));
        assert(text::decimal(b as nat) =~= nb@.skip(p.len() as int));
        text::lemma_in_base_injective(a as nat, b as nat, 10);
    }
}

/// The nodes are all up exactly where the name of each is among the channels.
pub proof fn law_all_up(
    channels: &Vec<String>,
    n: usize,
    r: bool,
    k: usize,
    name: String,
    asked: &str,
    there: bool,
)
    requires
        call_ensures(all_up, (channels, n), r),
        call_ensures(node_name, (k,), name),
        asked@ == name@,
        call_ensures(has_name, (channels, asked), there),
        k < n,
    ensures
        there <==> exists|i: int| 0 <= i < channels@.len() && (#[trigger] channels@[i])@ == name@,
        r ==> there,
{
    if r {
        let index = k as int;
        assert(among(channels@, name_of(index as nat)));
    }
}

/// A token that came round is sent round again in the next lap until the last one, which ends the
/// relay.
pub proof fn law_token_goes_round(lap: i64, laps: i64, r: Lap)
    requires
        lap < i64::MAX,
        call_ensures(on_token, (lap, laps), r),
    ensures
        lap + 1 < laps ==> (r matches Lap::Relay { lap: next } && next == lap + 1),
        lap + 1 >= laps ==> (r matches Lap::Stop { lap: next } && next == lap + 1),
{
}

/// The time for a lap and for a hop: that many laps, and that many hops, take no longer than the
/// whole time, and one unit more each would take longer.
pub proof fn law_times_add_up(elapsed_ns: u64, laps: u64, n: u64, r: (u64, u64))
    requires
        laps > 0,
        n > 0,
        laps * n <= u64::MAX,
        call_ensures(per_lap, (elapsed_ns, laps, n), r),
    ensures
        r.0 * laps <= elapsed_ns < (r.0 + 1) * laps,
        r.1 * (laps * n) <= elapsed_ns < (r.1 + 1) * (laps * n),
{
    let e = elapsed_ns as int;
    let l = laps as int;
    let h = laps * n;
    assert(h > 0) by (nonlinear_arith)
        requires
            laps > 0,
            n > 0,
            h == laps * n,
    ;
    vstd::arithmetic::div_mod::lemma_fundamental_div_mod(e, l);
    vstd::arithmetic::div_mod::lemma_fundamental_div_mod(e, h);
    vstd::arithmetic::div_mod::lemma_mod_bound(e, l);
    vstd::arithmetic::div_mod::lemma_mod_bound(e, h);
    assert((r.0 + 1) * l == l * (e / l) + l && r.0 * l == l * (e / l)) by (nonlinear_arith)
        requires
            r.0 as int == e / l,
    ;
    assert((r.1 + 1) * h == h * (e / h) + h && r.1 * h == h * (e / h)) by (nonlinear_arith)
        requires
            r.1 as int == e / h,
    ;
}

} // verus!
