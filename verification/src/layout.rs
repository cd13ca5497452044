//! Layout normalization: after disabling outputs, the remaining layout must
//! stay valid for the display server: exactly one primary among enabled
//! outputs and bounding-box origin at (0, 0). [`compact_horizontal`] closes gaps
//! besides, for servers that require adjacency.

use crate::binary64::{divide_by, dividing_by_one_changes_nothing, quotient_by};
use crate::identity::{matching, quality, same_identity, MatchQuality, OutputIdentity};
use crate::seqs::{first_where, first_where_facts, first_where_is, first_where_none};
use crate::text::same_text;
use crate::topology::{
    distinct_connectors, encoding_counts_quarter_turns, planned_as_is, planned_enabled, swaps_axes,
    transform_code, usable_scale, LayoutPlan, Mode, Output, PlannedOutput, Topology,
};
use vstd::prelude::*;

verus! {

/// Reading order of positions: further left first, then further up.
pub open spec fn before(a: (i32, i32), b: (i32, i32)) -> bool {
    a.0 < b.0 || (a.0 == b.0 && a.1 < b.1)
}

/// The condition that a planned output is enabled and primary.
pub open spec fn enabled_primary() -> spec_fn(PlannedOutput) -> bool {
    |p: PlannedOutput| p.enabled && p.primary
}

/// The first of the enabled outputs that lie leftmost, then topmost.
pub open spec fn leftmost(s: Seq<PlannedOutput>) -> Option<int>
    decreases s.len(),
{
    if s.len() == 0 {
        None
    } else {
        let rest = leftmost(s.drop_last());
        if !s.last().enabled {
            rest
        } else {
            match rest {
                None => Some(s.len() - 1),
                Some(i) => if before(s.last().position, s[i].position) {
                    Some(s.len() - 1)
                } else {
                    rest
                },
            }
        }
    }
}

/// The output that ends up primary: the first enabled primary, otherwise the
/// leftmost-topmost enabled output.
pub open spec fn chosen_primary(s: Seq<PlannedOutput>) -> Option<int> {
    match first_where(s, enabled_primary()) {
        Some(i) => Some(i),
        None => leftmost(s),
    }
}

/// The left edge of the enabled outputs.
pub open spec fn left_edge(s: Seq<PlannedOutput>) -> Option<i32>
    decreases s.len(),
{
    if s.len() == 0 {
        None
    } else {
        let rest = left_edge(s.drop_last());
        if !s.last().enabled {
            rest
        } else if rest is None || s.last().position.0 < rest->0 {
            Some(s.last().position.0)
        } else {
            rest
        }
    }
}

/// The top edge of the enabled outputs.
pub open spec fn top_edge(s: Seq<PlannedOutput>) -> Option<i32>
    decreases s.len(),
{
    if s.len() == 0 {
        None
    } else {
        let rest = top_edge(s.drop_last());
        if !s.last().enabled {
            rest
        } else if rest is None || s.last().position.1 < rest->0 {
            Some(s.last().position.1)
        } else {
            rest
        }
    }
}

/// The enabled outputs lie close enough together to be moved to the origin
/// within the coordinate range.
pub open spec fn spread_fits(s: Seq<PlannedOutput>) -> bool {
    forall|i: int, j: int|
        0 <= i < s.len() && 0 <= j < s.len() && (#[trigger] s[i]).enabled && (
        #[trigger] s[j]).enabled ==> s[i].position.0 - s[j].position.0 <= i32::MAX
            && s[i].position.1 - s[j].position.1 <= i32::MAX
}

/// One output of a normalized plan.
pub open spec fn normalized_one(s: Seq<PlannedOutput>, i: int) -> PlannedOutput {
    PlannedOutput {
        primary: chosen_primary(s) == Some(i),
        position: if s[i].enabled {
            (
                (s[i].position.0 - left_edge(s)->0) as i32,
                (s[i].position.1 - top_edge(s)->0) as i32,
            )
        } else {
            s[i].position
        },
        ..s[i]
    }
}

/// The normalized plan: unchanged when nothing is enabled; otherwise one
/// enabled output is primary and the enabled outputs start at (0, 0).
pub open spec fn normalized(s: Seq<PlannedOutput>) -> Seq<PlannedOutput> {
    if first_where(s, planned_enabled()) is None {
        s
    } else {
        Seq::new(s.len(), |i: int| normalized_one(s, i))
    }
}

/// The edges and the leftmost output exist once something is enabled, belong
/// to enabled outputs, and bound every enabled output.
pub proof fn edge_facts(s: Seq<PlannedOutput>)
    ensures
        left_edge(s) is Some <==> (exists|i: int| 0 <= i < s.len() && (#[trigger] s[i]).enabled),
        top_edge(s) is Some <==> left_edge(s) is Some,
        leftmost(s) is Some <==> left_edge(s) is Some,
        left_edge(s) is Some ==> (exists|i: int|
            0 <= i < s.len() && (#[trigger] s[i]).enabled && s[i].position.0 == left_edge(s)->0),
        top_edge(s) is Some ==> (exists|i: int|
            0 <= i < s.len() && (#[trigger] s[i]).enabled && s[i].position.1 == top_edge(s)->0),
        forall|i: int|
            0 <= i < s.len() && (#[trigger] s[i]).enabled ==> left_edge(s)->0 <= s[i].position.0
                && top_edge(s)->0 <= s[i].position.1,
        leftmost(s) is Some ==> {
            let k = leftmost(s)->0;
            &&& 0 <= k < s.len()
            &&& s[k].enabled
            &&& forall|i: int|
                0 <= i < s.len() && (#[trigger] s[i]).enabled ==> !before(
                    s[i].position,
                    s[k].position,
                )
            &&& forall|i: int|
                0 <= i < k && (#[trigger] s[i]).enabled ==> before(s[k].position, s[i].position)
        },
    decreases s.len(),
{
    if s.len() > 0 {
        let t = s.drop_last();
        edge_facts(t);
        assert(forall|i: int| 0 <= i < t.len() ==> t[i] == s[i]);
        let n = s.len() - 1;
        assert(s[n] == s.last());
        if left_edge(t) is Some {
            let i = choose|i: int|
                0 <= i < t.len() && (#[trigger] t[i]).enabled && t[i].position.0 == left_edge(t)->0;
            assert(s[i].enabled && s[i].position.0 == left_edge(t)->0);
            let j = choose|i: int|
                0 <= i < t.len() && (#[trigger] t[i]).enabled && t[i].position.1 == top_edge(t)->0;
            assert(s[j].enabled && s[j].position.1 == top_edge(t)->0);
        }
        if left_edge(s) is Some && !s.last().enabled {
            assert(left_edge(t) is Some);
        }
        assert forall|i: int| 0 <= i < s.len() && (#[trigger] s[i]).enabled implies left_edge(s)->0
            <= s[i].position.0 && top_edge(s)->0 <= s[i].position.1 by {
            if i < n {
                assert(t[i].enabled);
            }
        }
        if exists|i: int| 0 <= i < s.len() && (#[trigger] s[i]).enabled {
            let i = choose|i: int| 0 <= i < s.len() && (#[trigger] s[i]).enabled;
            if i < n {
                assert(t[i].enabled);
            }
        }
        if leftmost(s) is Some {
            let k = leftmost(s)->0;
            assert forall|i: int| 0 <= i < s.len() && (#[trigger] s[i]).enabled implies !before(
                s[i].position,
                s[k].position,
            ) by {
                if i < n {
                    assert(t[i].enabled);
                }
            }
            assert forall|i: int| 0 <= i < k && (#[trigger] s[i]).enabled implies before(
                s[k].position,
                s[i].position,
            ) by {
                assert(t[i].enabled);
            }
        }
    }
}

fn precedes(a: (i32, i32), b: (i32, i32)) -> (r: bool)
    ensures
        r == before(a, b),
{
    a.0 < b.0 || (a.0 == b.0 && a.1 < b.1)
}

/// Normalize a plan in place:
/// 1. exactly one enabled output is primary (prefers the existing primary,
///    otherwise the leftmost-topmost enabled output),
/// 2. enabled outputs are translated so their bounding box starts at (0, 0).
pub fn normalize(plan: &mut LayoutPlan)
    requires
        spread_fits(old(plan).outputs@),
    ensures
        final(plan).serial == old(plan).serial,
        final(plan).outputs@ == normalized(old(plan).outputs@),
{
    let n = plan.outputs.len();
    let ghost s = plan.outputs@;
    let mut first_primary: Option<usize> = None;
    let mut best: Option<usize> = None;
    let mut min_x: i32 = 0;
    let mut min_y: i32 = 0;
    let mut i: usize = 0;
    while i < n
        invariant
            i <= n == s.len(),
            plan.outputs@ == s,
            plan.serial == old(plan).serial,
            match (first_primary, first_where(s.take(i as int), enabled_primary())) {
                (Some(a), Some(b)) => a == b,
                (None, None) => true,
                _ => false,
            },
            match (best, leftmost(s.take(i as int))) {
                (Some(a), Some(b)) => a == b && a < i,
                (None, None) => true,
                _ => false,
            },
            best is Some <==> left_edge(s.take(i as int)) is Some,
            best is Some <==> top_edge(s.take(i as int)) is Some,
            best is Some ==> left_edge(s.take(i as int))->0 == min_x && top_edge(
                s.take(i as int),
            )->0 == min_y,
        decreases n - i,
    {
        proof {
            assert(s.take(i + 1).drop_last() =~= s.take(i as int));
            assert(s.take(i + 1).last() == s[i as int]);
            edge_facts(s.take(i as int));
        }
        if plan.outputs[i].enabled {
            let p = plan.outputs[i].position;
            if plan.outputs[i].primary && first_primary.is_none() {
                first_primary = Some(i);
            }
            match best {
                None => {
                    best = Some(i);
                    min_x = p.0;
                    min_y = p.1;
                },
                Some(b) => {
                    assert(s.take(i as int)[b as int] == s[b as int]);
                    assert(s.take(i + 1)[b as int] == s[b as int]);
                    if precedes(p, plan.outputs[b].position) {
                        best = Some(i);
                    }
                    if p.0 < min_x {
                        min_x = p.0;
                    }
                    if p.1 < min_y {
                        min_y = p.1;
                    }
                },
            }
        }
        i = i + 1;
    }
    assert(s.take(n as int) =~= s);
    proof {
        edge_facts(s);
        first_where_facts(s, planned_enabled());
        first_where_facts(s, enabled_primary());
    }
    let chosen: usize = match (first_primary, best) {
        (Some(p), _) => p,
        (None, Some(b)) => b,
        (None, None) => {
            assert(first_where(s, planned_enabled()) is None) by {
                if first_where(s, planned_enabled()) is Some {
                    let k = first_where(s, planned_enabled())->0;
                    assert(s[k].enabled);
                }
            }
            return;
        },
    };
    proof {
        assert(best is Some) by {
            if first_primary is Some {
                assert(s[first_primary->0 as int].enabled);
            }
        }
        let k = choose|k: int| 0 <= k < s.len() && (#[trigger] s[k]).enabled;
        if first_where(s, planned_enabled()) is None {
            assert(!planned_enabled()(s[k]));
        }
        assert(chosen_primary(s) == Some(chosen as int));
    }
    let mut k: usize = 0;
    while k < n
        invariant
            k <= n == s.len(),
            spread_fits(s),
            plan.serial == old(plan).serial,
            plan.outputs@.len() == s.len(),
            chosen_primary(s) == Some(chosen as int),
            left_edge(s) == Some(min_x),
            top_edge(s) == Some(min_y),
            forall|j: int| 0 <= j < k ==> plan.outputs@[j] == normalized_one(s, j),
            forall|j: int| k <= j < n ==> plan.outputs@[j] == s[j],
        decreases n - k,
    {
        let o = &mut plan.outputs[k];
        o.primary = k == chosen;
        if o.enabled {
            proof {
                edge_facts(s);
                let a = choose|a: int|
                    0 <= a < s.len() && (#[trigger] s[a]).enabled && s[a].position.0 == min_x;
                let b = choose|b: int|
                    0 <= b < s.len() && (#[trigger] s[b]).enabled && s[b].position.1 == min_y;
                assert(s[k as int].enabled && s[a].enabled && s[b].enabled);
            }
            o.position = (o.position.0 - min_x, o.position.1 - min_y);
        }
        k = k + 1;
    }
    assert(plan.outputs@ =~= normalized(s));
}

/// Whether the enabled outputs of a plan lie close enough together to be
/// moved to the origin.
pub fn spread_within(plan: &LayoutPlan) -> (r: bool)
    ensures
        r == spread_fits(plan.outputs@),
{
    let n = plan.outputs.len();
    for i in 0..n
        invariant
            n == plan.outputs.len(),
            forall|a: int, b: int|
                0 <= a < i && 0 <= b < n && (#[trigger] plan.outputs@[a]).enabled && (
                #[trigger] plan.outputs@[b]).enabled ==> plan.outputs@[a].position.0
                    - plan.outputs@[b].position.0 <= i32::MAX && plan.outputs@[a].position.1
                    - plan.outputs@[b].position.1 <= i32::MAX,
    {
        for j in 0..n
            invariant
                i < n == plan.outputs.len(),
                forall|b: int|
                    0 <= b < j && plan.outputs@[i as int].enabled && (
                    #[trigger] plan.outputs@[b]).enabled ==> plan.outputs@[i as int].position.0
                        - plan.outputs@[b].position.0 <= i32::MAX
                        && plan.outputs@[i as int].position.1 - plan.outputs@[b].position.1
                        <= i32::MAX,
        {
            let p = &plan.outputs[i];
            let q = &plan.outputs[j];
            if p.enabled && q.enabled {
                let dx: i64 = p.position.0 as i64 - q.position.0 as i64;
                let dy: i64 = p.position.1 as i64 - q.position.1 as i64;
                if dx > i32::MAX as i64 || dy > i32::MAX as i64 {
                    assert(plan.outputs@[i as int].enabled && plan.outputs@[j as int].enabled);
                    return false;
                }
            }
        }
    }
    true
}

/// The extent of a mode along the desktop's horizontal axis.
pub open spec fn raw_width(mode: Mode, swapped: bool) -> u32 {
    if swapped {
        mode.height
    } else {
        mode.width
    }
}

/// Width an output occupies in logical desktop coordinates.
pub open spec fn width_of(o: PlannedOutput) -> i32 {
    match o.mode {
        None => 0,
        Some(mode) => quotient_by(
            raw_width(mode, swaps_axes(o.transform)) as nat,
            usable_scale(o.scale).bits,
            i32::MAX as nat,
        ) as i32,
    }
}

/// Width the output occupies in logical desktop coordinates (accounts for
/// rotation and scale). Returns 0 when no mode is planned.
pub fn logical_width(o: &PlannedOutput) -> (r: i32)
    ensures
        r == width_of(*o),
        r >= 0,
{
    match o.mode {
        None => 0,
        Some(mode) => {
            let raw: u32 = if o.transform.swaps_axes() {
                mode.height
            } else {
                mode.width
            };
            let scale = o.scale.usable();
            divide_by(raw, scale.bits, i32::MAX as u64) as i32
        },
    }
}

/// Whether packing moves an output: it is enabled and has a mode.
pub open spec fn packed(o: PlannedOutput) -> bool {
    o.enabled && o.mode is Some
}

/// Whether packing places output `j` to the left of output `i`.
pub open spec fn packs_before(s: Seq<PlannedOutput>, j: int, i: int) -> bool {
    packed(s[j]) && (before(s[j].position, s[i].position) || (s[j].position == s[i].position && j
        < i))
}

/// Total width of those of the first `n` outputs that packing places to the
/// left of output `i`.
pub open spec fn width_before(s: Seq<PlannedOutput>, i: int, n: int) -> int
    decreases n,
{
    if n <= 0 {
        0
    } else {
        width_before(s, i, n - 1) + if packs_before(s, n - 1, i) {
            width_of(s[n - 1]) as int
        } else {
            0
        }
    }
}

/// Total width of the packed ones among the first `n` outputs.
pub open spec fn packed_width(s: Seq<PlannedOutput>, n: int) -> int
    decreases n,
{
    if n <= 0 {
        0
    } else {
        packed_width(s, n - 1) + if packed(s[n - 1]) {
            width_of(s[n - 1]) as int
        } else {
            0
        }
    }
}

/// The outputs packed horizontally in reading order, each right of the ones
/// before it; outputs that are off or have no mode stay where they are.
pub open spec fn compacted(s: Seq<PlannedOutput>) -> Seq<PlannedOutput> {
    Seq::new(
        s.len(),
        |i: int|
            if packed(s[i]) {
                PlannedOutput {
                    position: (width_before(s, i, s.len() as int) as i32, s[i].position.1),
                    ..s[i]
                }
            } else {
                s[i]
            },
    )
}

/// A width is never negative.
pub proof fn width_nonnegative(o: PlannedOutput)
    ensures
        width_of(o) >= 0,
{
    if o.mode is Some {
        let raw = raw_width(o.mode->0, swaps_axes(o.transform)) as nat;
        assert(quotient_by(raw, usable_scale(o.scale).bits, i32::MAX as nat) <= i32::MAX);
    }
}

proof fn width_bounds(s: Seq<PlannedOutput>, i: int, n: int)
    requires
        0 <= n <= s.len(),
    ensures
        0 <= width_before(s, i, n) <= packed_width(s, n) <= packed_width(s, s.len() as int),
{
    packed_width_grows(s, n, s.len() as int);
    width_bounds_below(s, i, n);
}

proof fn width_bounds_below(s: Seq<PlannedOutput>, i: int, n: int)
    requires
        0 <= n <= s.len(),
    ensures
        0 <= width_before(s, i, n) <= packed_width(s, n),
    decreases n,
{
    if n > 0 {
        width_bounds_below(s, i, n - 1);
        width_nonnegative(s[n - 1]);
    }
}

proof fn packed_width_grows(s: Seq<PlannedOutput>, m: int, n: int)
    requires
        0 <= m <= n,
    ensures
        packed_width(s, m) <= packed_width(s, n),
    decreases n - m,
{
    if m < n {
        packed_width_grows(s, m, n - 1);
        width_nonnegative(s[n - 1]);
    }
}

/// Re-pack enabled outputs horizontally (in order of current x, then y),
/// preserving each output's y offset relative to the topmost. Fallback for
/// display servers that reject layouts with gaps after a middle monitor is
/// disabled. Uses the planned logical width as the advance; outputs without a
/// mode keep their position until the plan is normalized.
pub fn compact_horizontal(plan: &mut LayoutPlan)
    requires
        packed_width(old(plan).outputs@, old(plan).outputs@.len() as int) <= i32::MAX,
        spread_fits(compacted(old(plan).outputs@)),
    ensures
        final(plan).serial == old(plan).serial,
        final(plan).outputs@ == normalized(compacted(old(plan).outputs@)),
{
    let n = plan.outputs.len();
    let ghost s = plan.outputs@;
    let mut offsets: Vec<i32> = Vec::new();
    let mut i: usize = 0;
    while i < n
        invariant
            i <= n == s.len(),
            plan.outputs@ == s,
            plan.serial == old(plan).serial,
            offsets.len() == i,
            packed_width(s, s.len() as int) <= i32::MAX,
            forall|j: int| 0 <= j < i ==> offsets@[j] == width_before(s, j, n as int),
        decreases n - i,
    {
        let mut x: i32 = 0;
        let mut j: usize = 0;
        while j < n
            invariant
                i < n,
                j <= n == s.len(),
                plan.outputs@ == s,
                packed_width(s, s.len() as int) <= i32::MAX,
                x == width_before(s, i as int, j as int),
            decreases n - j,
        {
            let o = &plan.outputs[j];
            proof {
                width_bounds(s, i as int, j + 1);
            }
            if o.enabled && o.mode.is_some() && (precedes(o.position, plan.outputs[i].position) || (
            o.position.0 == plan.outputs[i].position.0 && o.position.1
                == plan.outputs[i].position.1 && j < i)) {
                assert(packs_before(s, j as int, i as int));
                x = x + logical_width(o);
            } else {
                assert(!packs_before(s, j as int, i as int));
            }
            j = j + 1;
        }
        offsets.push(x);
        i = i + 1;
    }
    let mut k: usize = 0;
    while k < n
        invariant
            k <= n == s.len(),
            offsets.len() == n,
            plan.serial == old(plan).serial,
            plan.outputs@.len() == s.len(),
            forall|j: int| 0 <= j < n ==> offsets@[j] == width_before(s, j, n as int),
            forall|j: int| 0 <= j < k ==> plan.outputs@[j] == compacted(s)[j],
            forall|j: int| k <= j < n ==> plan.outputs@[j] == s[j],
        decreases n - k,
    {
        let o = &mut plan.outputs[k];
        if o.enabled && o.mode.is_some() {
            o.position = (offsets[k], o.position.1);
        }
        k = k + 1;
    }
    assert(plan.outputs@ =~= compacted(s));
    normalize(plan);
}

// ------------------------------------------------------------ restoring

/// The condition that an output matches an identity at one quality, and at the
/// same connector if `there` says so.
pub open spec fn output_with(id: OutputIdentity, q: MatchQuality, there: bool) -> spec_fn(
    Output,
) -> bool {
    |o: Output|
        quality(o.identity, id) == q && (there ==> o.identity.connector@ == id.connector@)
}

/// The condition that a planned output matches an identity at one quality, and at
/// the same connector if `there` says so.
pub open spec fn planned_with(id: OutputIdentity, q: MatchQuality, there: bool) -> spec_fn(
    PlannedOutput,
) -> bool {
    |p: PlannedOutput|
        quality(p.identity, id) == q && (there ==> p.identity.connector@ == id.connector@)
}

/// Where a display stands in a snapshot: at the EDID match that has kept its
/// connector, otherwise at the first EDID match, otherwise at the first
/// connector match.
pub open spec fn output_of(id: OutputIdentity, s: Seq<Output>) -> Option<int> {
    match first_where(s, output_with(id, MatchQuality::Edid, true)) {
        Some(i) => Some(i),
        None => match first_where(s, output_with(id, MatchQuality::Edid, false)) {
            Some(i) => Some(i),
            None => first_where(s, output_with(id, MatchQuality::Connector, false)),
        },
    }
}

/// Where a display stands in a plan, as in a snapshot (see [`output_of`]).
pub open spec fn planned_of(id: OutputIdentity, s: Seq<PlannedOutput>) -> Option<int> {
    match first_where(s, planned_with(id, MatchQuality::Edid, true)) {
        Some(i) => Some(i),
        None => match first_where(s, planned_with(id, MatchQuality::Edid, false)) {
            Some(i) => Some(i),
            None => first_where(s, planned_with(id, MatchQuality::Connector, false)),
        },
    }
}

/// How one live output is planned when an earlier layout comes back.
pub open spec fn restored_one(o: Output, prior: Seq<Output>) -> PlannedOutput {
    match output_of(o.identity, prior) {
        Some(i) => PlannedOutput { identity: o.identity, ..planned_as_is(prior[i]) },
        None => planned_as_is(o),
    }
}

/// Every live output planned as in an earlier layout.
pub open spec fn restored(current: Seq<Output>, prior: Seq<Output>) -> Seq<PlannedOutput> {
    current.map_values(|o: Output| restored_one(o, prior))
}

fn find_output(
    outputs: &Vec<Output>,
    id: &OutputIdentity,
    q: MatchQuality,
    there: bool,
) -> (r: Option<usize>)
    ensures
        match (r, first_where(outputs@, output_with(*id, q, there))) {
            (Some(i), Some(want)) => i == want && i < outputs@.len(),
            (None, None) => true,
            _ => false,
        },
{
    for i in 0..outputs.len()
        invariant
            forall|j: int| 0 <= j < i ==> !output_with(*id, q, there)(outputs@[j]),
    {
        let o = &outputs[i].identity;
        if o.match_quality(id) == q && (!there || same_text(
            o.connector.as_str(),
            id.connector.as_str(),
        )) {
            proof {
                first_where_is(outputs@, output_with(*id, q, there), i as int);
            }
            return Some(i);
        }
    }
    proof {
        first_where_none(outputs@, output_with(*id, q, there));
    }
    None
}

fn index_of_output(outputs: &Vec<Output>, id: &OutputIdentity) -> (r: Option<usize>)
    ensures
        match (r, output_of(*id, outputs@)) {
            (Some(i), Some(want)) => i == want && i < outputs@.len(),
            (None, None) => true,
            _ => false,
        },
{
    match find_output(outputs, id, MatchQuality::Edid, true) {
        Some(i) => Some(i),
        None => match find_output(outputs, id, MatchQuality::Edid, false) {
            Some(i) => Some(i),
            None => find_output(outputs, id, MatchQuality::Connector, false),
        },
    }
}

fn find_planned(
    outputs: &Vec<PlannedOutput>,
    id: &OutputIdentity,
    q: MatchQuality,
    there: bool,
) -> (r: Option<usize>)
    ensures
        match (r, first_where(outputs@, planned_with(*id, q, there))) {
            (Some(i), Some(want)) => i == want && i < outputs@.len(),
            (None, None) => true,
            _ => false,
        },
{
    for i in 0..outputs.len()
        invariant
            forall|j: int| 0 <= j < i ==> !planned_with(*id, q, there)(outputs@[j]),
    {
        let p = &outputs[i].identity;
        if p.match_quality(id) == q && (!there || same_text(
            p.connector.as_str(),
            id.connector.as_str(),
        )) {
            proof {
                first_where_is(outputs@, planned_with(*id, q, there), i as int);
            }
            return Some(i);
        }
    }
    proof {
        first_where_none(outputs@, planned_with(*id, q, there));
    }
    None
}

/// Where a display stands in a plan.
pub fn index_of_planned(outputs: &Vec<PlannedOutput>, id: &OutputIdentity) -> (r: Option<usize>)
    ensures
        match (r, planned_of(*id, outputs@)) {
            (Some(i), Some(want)) => i == want && i < outputs@.len(),
            (None, None) => true,
            _ => false,
        },
{
    match find_planned(outputs, id, MatchQuality::Edid, true) {
        Some(i) => Some(i),
        None => match find_planned(outputs, id, MatchQuality::Edid, false) {
            Some(i) => Some(i),
            None => find_planned(outputs, id, MatchQuality::Connector, false),
        },
    }
}

fn restored_plan(current: &Topology, prior: &Topology) -> (r: LayoutPlan)
    ensures
        r.serial == current.serial,
        r.outputs@ == restored(current.outputs@, prior.outputs@),
{
    let mut plan = LayoutPlan::from_topology(current);
    let n = plan.outputs.len();
    let mut i: usize = 0;
    while i < n
        invariant
            i <= n == current.outputs@.len(),
            plan.serial == current.serial,
            plan.outputs@.len() == n,
            forall|j: int|
                0 <= j < i ==> plan.outputs@[j] == restored(current.outputs@, prior.outputs@)[j],
            forall|j: int| i <= j < n ==> plan.outputs@[j] == planned_as_is(current.outputs@[j]),
        decreases n - i,
    {
        let id = &current.outputs[i].identity;
        if let Some(k) = index_of_output(&prior.outputs, id) {
            let mut planned = PlannedOutput::from_output(&prior.outputs[k]);
            // Keep the live identity (the connector may have migrated).
            planned.identity = id.clone();
            plan.outputs[i] = planned;
        }
        i = i + 1;
    }
    assert(plan.outputs@ =~= restored(current.outputs@, prior.outputs@));
    plan
}

/// Whether a restored layout lies close enough together to be moved to the
/// origin (see [`restore_plan`]).
pub fn restore_fits(current: &Topology, prior: &Topology) -> (r: bool)
    ensures
        r == spread_fits(restored(current.outputs@, prior.outputs@)),
{
    spread_within(&restored_plan(current, prior))
}

/// Build a plan that restores `prior`'s state on top of the current topology
/// (used to revert a pending change). Outputs are matched EDID-first; outputs
/// that appeared since `prior` keep their current state.
pub fn restore_plan(current: &Topology, prior: &Topology) -> (r: LayoutPlan)
    requires
        spread_fits(restored(current.outputs@, prior.outputs@)),
    ensures
        r.serial == current.serial,
        r.outputs@ == normalized(restored(current.outputs@, prior.outputs@)),
{
    let mut plan = restored_plan(current, prior);
    normalize(&mut plan);
    plan
}

/// How one live output is planned when a plan moves to a fresh snapshot.
pub open spec fn rebased_one(o: Output, plan: Seq<PlannedOutput>) -> PlannedOutput {
    match planned_of(o.identity, plan) {
        Some(i) => PlannedOutput { identity: o.identity, ..plan[i] },
        None => planned_as_is(o),
    }
}

/// The desired states of a plan on top of a fresh snapshot.
pub open spec fn rebased(plan: Seq<PlannedOutput>, fresh: Seq<Output>) -> Seq<PlannedOutput> {
    fresh.map_values(|o: Output| rebased_one(o, plan))
}

fn rebased_plan(plan: &LayoutPlan, fresh: &Topology) -> (r: LayoutPlan)
    ensures
        r.serial == fresh.serial,
        r.outputs@ == rebased(plan.outputs@, fresh.outputs@),
{
    let mut outputs: Vec<PlannedOutput> = Vec::new();
    for i in 0..fresh.outputs.len()
        invariant
            outputs.len() == i,
            forall|j: int|
                0 <= j < i ==> outputs@[j] == rebased_one(fresh.outputs@[j], plan.outputs@),
    {
        let target = &fresh.outputs[i];
        match index_of_planned(&plan.outputs, &target.identity) {
            Some(w) => {
                let mut p = plan.outputs[w].clone();
                p.identity = target.identity.clone();
                outputs.push(p);
            },
            None => {
                outputs.push(PlannedOutput::from_output(target));
            },
        }
    }
    assert(outputs@ =~= rebased(plan.outputs@, fresh.outputs@));
    LayoutPlan { serial: fresh.serial.clone(), outputs }
}

/// Whether a rebased layout lies close enough together to be moved to the
/// origin (see [`rebase_plan`]).
pub fn rebase_fits(plan: &LayoutPlan, fresh: &Topology) -> (r: bool)
    ensures
        r == spread_fits(rebased(plan.outputs@, fresh.outputs@)),
{
    spread_within(&rebased_plan(plan, fresh))
}

/// Rebase a plan onto a fresh topology snapshot after a serial race: keep the
/// desired per-output states, adopt the fresh serial and any newly appeared
/// outputs (which keep their current state).
pub fn rebase_plan(plan: &LayoutPlan, fresh: &Topology) -> (r: LayoutPlan)
    requires
        spread_fits(rebased(plan.outputs@, fresh.outputs@)),
    ensures
        r.serial == fresh.serial,
        r.outputs@ == normalized(rebased(plan.outputs@, fresh.outputs@)),
{
    let mut result = rebased_plan(plan, fresh);
    normalize(&mut result);
    result
}

// ----------------------------------------------------------------- laws

/// Once anything is enabled, a normalized plan has exactly one primary, and
/// that output is enabled.
pub proof fn normalized_has_one_primary(s: Seq<PlannedOutput>)
    requires
        exists|i: int| 0 <= i < s.len() && (#[trigger] s[i]).enabled,
    ensures
        exists|k: int|
            {
                &&& 0 <= k < s.len()
                &&& normalized(s)[k].enabled
                &&& forall|i: int|
                    0 <= i < s.len() ==> ((#[trigger] normalized(s)[i]).primary <==> i == k)
            },
{
    let k = normalized_primary(s, normalized(s));
    assert(normalized(s)[k].enabled);
}

/// An enabled output that is primary stays primary, unless an earlier enabled
/// output is primary too; with no such output the leftmost-topmost enabled
/// output is promoted.
pub proof fn normalized_prefers_the_existing_primary(s: Seq<PlannedOutput>, k: int)
    requires
        0 <= k < s.len(),
        s[k].enabled,
    ensures
        s[k].primary && (forall|j: int| 0 <= j < k ==> !((#[trigger] s[j]).enabled && s[j].primary))
            ==> normalized(s)[k].primary,
        normalized(s)[k].primary && !s[k].primary ==> (forall|j: int|
            0 <= j < s.len() && (#[trigger] s[j]).enabled ==> !s[j].primary && !before(
                s[j].position,
                s[k].position,
            )),
{
    edge_facts(s);
    first_where_facts(s, enabled_primary());
    first_where_facts(s, planned_enabled());
    assert(planned_enabled()(s[k]));
    if normalized(s)[k].primary && !s[k].primary {
        assert forall|j: int| 0 <= j < s.len() && (#[trigger] s[j]).enabled implies !s[j].primary
            && !before(s[j].position, s[k].position) by {
            assert(!enabled_primary()(s[j]));
        }
    }
}

/// Once anything is enabled, the enabled outputs of a normalized plan lie at
/// or right of and below the origin, and some touch each axis.
pub proof fn normalized_starts_at_origin(s: Seq<PlannedOutput>)
    requires
        spread_fits(s),
        exists|i: int| 0 <= i < s.len() && (#[trigger] s[i]).enabled,
    ensures
        forall|i: int|
            0 <= i < s.len() && (#[trigger] normalized(s)[i]).enabled ==> normalized(s)[i].position.0
                >= 0 && normalized(s)[i].position.1 >= 0,
        exists|i: int|
            0 <= i < s.len() && (#[trigger] normalized(s)[i]).enabled
                && normalized(s)[i].position.0 == 0,
        exists|i: int|
            0 <= i < s.len() && (#[trigger] normalized(s)[i]).enabled
                && normalized(s)[i].position.1 == 0,
{
    edge_facts(s);
    first_where_facts(s, planned_enabled());
    let w = choose|i: int| 0 <= i < s.len() && (#[trigger] s[i]).enabled;
    assert(planned_enabled()(s[w]));
    let a = choose|a: int|
        0 <= a < s.len() && (#[trigger] s[a]).enabled && s[a].position.0 == left_edge(s)->0;
    let b = choose|b: int|
        0 <= b < s.len() && (#[trigger] s[b]).enabled && s[b].position.1 == top_edge(s)->0;
    assert(normalized(s)[a].enabled && normalized(s)[a].position.0 == 0);
    assert(normalized(s)[b].enabled && normalized(s)[b].position.1 == 0);
    assert forall|i: int| 0 <= i < s.len() && (#[trigger] normalized(s)[i]).enabled implies
        normalized(s)[i].position.0 >= 0 && normalized(s)[i].position.1 >= 0 by {
        assert(s[i].enabled && s[a].enabled && s[b].enabled);
    }
}

/// Normalization leaves everything but the primary mark and the positions of
/// enabled outputs alone, and keeps the distances between enabled outputs.
pub proof fn normalized_keeps_the_rest(s: Seq<PlannedOutput>, i: int, j: int)
    requires
        spread_fits(s),
        0 <= i < s.len(),
        0 <= j < s.len(),
    ensures
        normalized(s).len() == s.len(),
        normalized(s)[i] == (PlannedOutput {
            primary: normalized(s)[i].primary,
            position: normalized(s)[i].position,
            ..s[i]
        }),
        !s[i].enabled ==> normalized(s)[i].position == s[i].position,
        s[i].enabled && s[j].enabled ==> {
            &&& normalized(s)[i].position.0 - normalized(s)[j].position.0 == s[i].position.0
                - s[j].position.0
            &&& normalized(s)[i].position.1 - normalized(s)[j].position.1 == s[i].position.1
                - s[j].position.1
        },
{
    edge_facts(s);
    first_where_facts(s, planned_enabled());
    if s[i].enabled && s[j].enabled {
        assert(planned_enabled()(s[i]));
        let a = choose|a: int|
            0 <= a < s.len() && (#[trigger] s[a]).enabled && s[a].position.0 == left_edge(s)->0;
        let b = choose|b: int|
            0 <= b < s.len() && (#[trigger] s[b]).enabled && s[b].position.1 == top_edge(s)->0;
        assert(s[a].enabled && s[b].enabled);
    }
}

proof fn normalized_spread(s: Seq<PlannedOutput>)
    requires
        spread_fits(s),
    ensures
        spread_fits(normalized(s)),
{
    let t = normalized(s);
    assert forall|i: int, j: int|
        0 <= i < t.len() && 0 <= j < t.len() && (#[trigger] t[i]).enabled && (
        #[trigger] t[j]).enabled implies t[i].position.0 - t[j].position.0 <= i32::MAX
        && t[i].position.1 - t[j].position.1 <= i32::MAX by {
        normalized_keeps_the_rest(s, i, j);
        assert(s[i].enabled && s[j].enabled);
    }
}

proof fn normalized_edges(s: Seq<PlannedOutput>)
    requires
        spread_fits(s),
        exists|i: int| 0 <= i < s.len() && (#[trigger] s[i]).enabled,
    ensures
        left_edge(normalized(s)) == Some(0i32),
        top_edge(normalized(s)) == Some(0i32),
{
    let t = normalized(s);
    normalized_starts_at_origin(s);
    edge_facts(t);
    let a = choose|i: int|
        0 <= i < s.len() && (#[trigger] normalized(s)[i]).enabled && normalized(s)[i].position.0
            == 0;
    let b = choose|i: int|
        0 <= i < s.len() && (#[trigger] normalized(s)[i]).enabled && normalized(s)[i].position.1
            == 0;
    assert(t[a].enabled && t[b].enabled);
}

proof fn normalized_fixed(s: Seq<PlannedOutput>, k: int)
    requires
        0 <= k < s.len(),
        s[k].enabled,
        forall|i: int| 0 <= i < s.len() ==> ((#[trigger] s[i]).primary <==> i == k),
        left_edge(s) == Some(0i32),
        top_edge(s) == Some(0i32),
    ensures
        normalized(s) == s,
{
    first_where_is(s, enabled_primary(), k);
    assert forall|i: int| 0 <= i < s.len() implies normalized_one(s, i) == s[i] by {}
    assert(normalized(s) =~= s);
}

proof fn normalized_primary(s: Seq<PlannedOutput>, t: Seq<PlannedOutput>) -> (k: int)
    requires
        exists|i: int| 0 <= i < s.len() && (#[trigger] s[i]).enabled,
        t == normalized(s),
    ensures
        0 <= k < t.len(),
        t[k].enabled,
        forall|i: int| 0 <= i < t.len() ==> ((#[trigger] t[i]).primary <==> i == k),
{
    edge_facts(s);
    first_where_facts(s, enabled_primary());
    first_where_facts(s, planned_enabled());
    let w = choose|i: int| 0 <= i < s.len() && (#[trigger] s[i]).enabled;
    assert(planned_enabled()(s[w]));
    chosen_primary(s)->0
}

proof fn normalized_again(s: Seq<PlannedOutput>, t: Seq<PlannedOutput>)
    requires
        spread_fits(s),
        exists|i: int| 0 <= i < s.len() && (#[trigger] s[i]).enabled,
        t == normalized(s),
    ensures
        normalized(t) == t,
{
    let k = normalized_primary(s, t);
    normalized_edges(s);
    normalized_fixed(t, k);
}

/// Normalizing twice changes nothing more.
pub proof fn normalized_is_stable(s: Seq<PlannedOutput>)
    requires
        spread_fits(s),
    ensures
        spread_fits(normalized(s)),
        normalized(normalized(s)) == normalized(s),
{
    normalized_spread(s);
    if exists|i: int| 0 <= i < s.len() && (#[trigger] s[i]).enabled {
        normalized_again(s, normalized(s));
    } else {
        first_where_none(s, planned_enabled());
    }
}

/// Whether two plans say the same but for their primary marks and for a
/// distance by which all enabled outputs lie apart.
pub open spec fn alike_but_moved(
    a: Seq<PlannedOutput>,
    b: Seq<PlannedOutput>,
    by: (int, int),
) -> bool {
    &&& a.len() == b.len()
    &&& forall|i: int| 0 <= i < a.len() ==> moved_alike(#[trigger] a[i], b[i], by)
}

/// Whether two planned outputs are the same but for the primary mark and, if
/// enabled, a distance.
pub open spec fn moved_alike(a: PlannedOutput, b: PlannedOutput, by: (int, int)) -> bool {
    &&& a == (PlannedOutput { primary: a.primary, position: a.position, ..b })
    &&& if b.enabled {
        a.position.0 == b.position.0 + by.0 && a.position.1 == b.position.1 + by.1
    } else {
        a.position == b.position
    }
}

/// Two plans that differ only in where the whole lies, and in primary marks, are
/// normalized alike if the same output ends up primary.
pub proof fn normalized_alike(a: Seq<PlannedOutput>, b: Seq<PlannedOutput>, by: (int, int))
    requires
        alike_but_moved(a, b, by),
        chosen_primary(a) == chosen_primary(b),
        first_where(b, planned_enabled()) is Some,
    ensures
        normalized(a) == normalized(b),
{
    edges_alike(a, b, by);
    first_where_facts(b, planned_enabled());
    let k = first_where(b, planned_enabled())->0;
    assert(moved_alike(a[k], b[k], by));
    assert(a[k].enabled);
    first_where_facts(a, planned_enabled());
    assert(planned_enabled()(a[k]));
    edge_facts(b);
    assert(b[k].enabled);
    assert(normalized(a) =~= normalized(b)) by {
        assert forall|i: int| 0 <= i < a.len() implies normalized(a)[i] == normalized(b)[i] by {
            assert(moved_alike(a[i], b[i], by));
        }
    }
}

proof fn edges_alike(a: Seq<PlannedOutput>, b: Seq<PlannedOutput>, by: (int, int))
    requires
        alike_but_moved(a, b, by),
    ensures
        left_edge(a) is Some <==> left_edge(b) is Some,
        top_edge(a) is Some <==> top_edge(b) is Some,
        left_edge(b) is Some ==> left_edge(a)->0 == left_edge(b)->0 + by.0,
        top_edge(b) is Some ==> top_edge(a)->0 == top_edge(b)->0 + by.1,
    decreases a.len(),
{
    if a.len() > 0 {
        let s = a.drop_last();
        let t = b.drop_last();
        assert forall|i: int| 0 <= i < s.len() implies moved_alike(#[trigger] s[i], t[i], by) by {
            assert(moved_alike(a[i], b[i], by));
        }
        edges_alike(s, t, by);
        let n = a.len() - 1;
        assert(moved_alike(a[n], b[n], by));
    }
}

/// Whether two snapshots list the same displays in the same order.
pub open spec fn same_displays(a: Seq<Output>, b: Seq<Output>) -> bool {
    a.len() == b.len() && forall|i: int|
        0 <= i < a.len() ==> (#[trigger] a[i]).identity == b[i].identity
}

/// Whether no two displays of a snapshot can be taken for one another.
pub open spec fn distinct_displays(outputs: Seq<Output>) -> bool {
    forall|i: int, j: int|
        0 <= i < outputs.len() && 0 <= j < outputs.len() && i != j ==> !matching(
            (#[trigger] outputs[i]).identity,
            (#[trigger] outputs[j]).identity,
        )
}

/// Every live output keeps its place and its identity in the restoring plan, so
/// each is planned exactly once.
pub proof fn restoring_plans_every_output_once(current: Seq<Output>, prior: Seq<Output>)
    ensures
        restored(current, prior).len() == current.len(),
        forall|i: int|
            0 <= i < current.len() ==> (#[trigger] restored(current, prior)[i]).identity
                == current[i].identity,
{
}

/// Whatever happened to the layout meanwhile, and in whatever order the displays
/// are listed now, the restoring plan has each display as it was, also where two
/// displays report the same EDID.
pub proof fn restoring_gives_the_earlier_layout(
    current: Seq<Output>,
    prior: Seq<Output>,
    i: int,
    j: int,
)
    requires
        distinct_connectors(prior),
        0 <= i < current.len(),
        0 <= j < prior.len(),
        same_identity(current[i].identity, prior[j].identity),
    ensures
        restored(current, prior)[i] == (PlannedOutput {
            identity: current[i].identity,
            ..planned_as_is(prior[j])
        }),
{
    let id = current[i].identity;
    if id.edid is Some {
        first_where_is(prior, output_with(id, MatchQuality::Edid, true), j);
    } else {
        first_where_none(prior, output_with(id, MatchQuality::Edid, true));
        first_where_none(prior, output_with(id, MatchQuality::Edid, false));
        first_where_is(prior, output_with(id, MatchQuality::Connector, false), j);
    }
}

/// The earlier layout on the outputs that are there now: each in the state of the
/// earlier output at its place in `at`.
pub open spec fn earlier_layout(
    current: Seq<Output>,
    prior: Seq<Output>,
    at: Seq<int>,
) -> Seq<PlannedOutput> {
    Seq::new(
        current.len(),
        |i: int|
            PlannedOutput { identity: current[i].identity, ..planned_as_is(prior[at[i]]) },
    )
}

/// The plan that restores an earlier snapshot of the same displays is that
/// snapshot's layout, normalized, whatever happened in between and in whatever
/// order the displays are listed now.
pub proof fn restoring_undoes_what_happened(
    current: Seq<Output>,
    prior: Seq<Output>,
    at: Seq<int>,
)
    requires
        distinct_connectors(prior),
        at.len() == current.len(),
        forall|i: int|
            0 <= i < current.len() ==> 0 <= #[trigger] at[i] < prior.len() && same_identity(
                current[i].identity,
                prior[at[i]].identity,
            ),
    ensures
        restored(current, prior) == earlier_layout(current, prior, at),
        normalized(restored(current, prior)) == normalized(earlier_layout(current, prior, at)),
{
    assert forall|i: int| 0 <= i < current.len() implies restored(current, prior)[i]
        == earlier_layout(current, prior, at)[i] by {
        restoring_gives_the_earlier_layout(current, prior, i, at[i]);
    }
    assert(restored(current, prior) =~= earlier_layout(current, prior, at));
}

/// A display that was plugged in elsewhere meanwhile is restored where it is now.
pub proof fn restoring_follows_a_moved_display(
    current: Seq<Output>,
    prior: Seq<Output>,
    i: int,
    j: int,
)
    requires
        0 <= i < current.len(),
        0 <= j < prior.len(),
        forall|k: int|
            0 <= k < prior.len() ==> (quality((#[trigger] prior[k]).identity, current[i].identity)
                == MatchQuality::Edid <==> k == j),
    ensures
        restored(current, prior)[i] == (PlannedOutput {
            identity: current[i].identity,
            ..planned_as_is(prior[j])
        }),
{
    let id = current[i].identity;
    first_where_facts(prior, output_with(id, MatchQuality::Edid, true));
    assert(quality(prior[j].identity, id) == MatchQuality::Edid);
    first_where_is(prior, output_with(id, MatchQuality::Edid, false), j);
}

/// A display that matches nothing in the earlier snapshot keeps its current
/// state when that snapshot is restored.
pub proof fn restoring_leaves_new_displays_alone(
    current: Seq<Output>,
    prior: Seq<Output>,
    i: int,
)
    requires
        0 <= i < current.len(),
        forall|j: int| 0 <= j < prior.len() ==> !matching(
            (#[trigger] prior[j]).identity,
            current[i].identity,
        ),
    ensures
        restored(current, prior)[i] == planned_as_is(current[i]),
{
    let id = current[i].identity;
    first_where_none(prior, output_with(id, MatchQuality::Edid, true));
    first_where_none(prior, output_with(id, MatchQuality::Edid, false));
    first_where_none(prior, output_with(id, MatchQuality::Connector, false));
}

/// Whether no two entries of a plan share a connector.
pub open spec fn distinct_entries(plan: Seq<PlannedOutput>) -> bool {
    forall|i: int, j: int|
        0 <= i < plan.len() && 0 <= j < plan.len() && i != j ==> (
        #[trigger] plan[i]).identity.connector@ != (#[trigger] plan[j]).identity.connector@
}

/// A rebased plan holds the outputs of the fresh snapshot, each in its place and
/// under its identity; the entries of vanished outputs are dropped.
pub proof fn rebasing_plans_what_is_there(plan: Seq<PlannedOutput>, fresh: Seq<Output>)
    ensures
        rebased(plan, fresh).len() == fresh.len(),
        forall|i: int|
            0 <= i < fresh.len() ==> (#[trigger] rebased(plan, fresh)[i]).identity
                == fresh[i].identity,
{
}

/// Rebasing keeps the desired state of every display that is still there, in
/// whatever order the fresh snapshot lists them.
pub proof fn rebasing_keeps_the_desired_states(
    plan: Seq<PlannedOutput>,
    fresh: Seq<Output>,
    i: int,
    j: int,
)
    requires
        distinct_entries(plan),
        0 <= i < fresh.len(),
        0 <= j < plan.len(),
        same_identity(fresh[i].identity, plan[j].identity),
    ensures
        rebased(plan, fresh)[i] == (PlannedOutput { identity: fresh[i].identity, ..plan[j] }),
{
    let id = fresh[i].identity;
    if id.edid is Some {
        first_where_is(plan, planned_with(id, MatchQuality::Edid, true), j);
    } else {
        first_where_none(plan, planned_with(id, MatchQuality::Edid, true));
        first_where_none(plan, planned_with(id, MatchQuality::Edid, false));
        first_where_is(plan, planned_with(id, MatchQuality::Connector, false), j);
    }
}

/// Whether a plan does not know a display.
pub open spec fn unplanned(plan: Seq<PlannedOutput>, id: OutputIdentity) -> bool {
    forall|j: int| 0 <= j < plan.len() ==> !matching((#[trigger] plan[j]).identity, id)
}

/// A display that the plan did not know keeps its current state.
pub proof fn rebasing_leaves_new_displays_alone(
    plan: Seq<PlannedOutput>,
    fresh: Seq<Output>,
    i: int,
)
    requires
        0 <= i < fresh.len(),
        unplanned(plan, fresh[i].identity),
    ensures
        rebased(plan, fresh)[i] == planned_as_is(fresh[i]),
{
    let id = fresh[i].identity;
    first_where_none(plan, planned_with(id, MatchQuality::Edid, true));
    first_where_none(plan, planned_with(id, MatchQuality::Edid, false));
    first_where_none(plan, planned_with(id, MatchQuality::Connector, false));
}

/// A plan carried over to the outputs that are there now: each in its planned
/// state, found at its place in `at`, or as it is where it is new.
pub open spec fn carried_over(
    plan: Seq<PlannedOutput>,
    fresh: Seq<Output>,
    at: Seq<Option<int>>,
) -> Seq<PlannedOutput> {
    Seq::new(
        fresh.len(),
        |i: int|
            match at[i] {
                Some(j) => PlannedOutput { identity: fresh[i].identity, ..plan[j] },
                None => planned_as_is(fresh[i]),
            },
    )
}

/// A rebased plan asks for the planned state of every display that is still there,
/// leaves new displays as they are, and drops the ones that vanished.
pub proof fn rebasing_carries_the_plan_over(
    plan: Seq<PlannedOutput>,
    fresh: Seq<Output>,
    at: Seq<Option<int>>,
)
    requires
        distinct_entries(plan),
        at.len() == fresh.len(),
        forall|i: int|
            0 <= i < fresh.len() ==> match #[trigger] at[i] {
                Some(j) => 0 <= j < plan.len() && same_identity(
                    fresh[i].identity,
                    plan[j].identity,
                ),
                None => unplanned(plan, fresh[i].identity),
            },
    ensures
        rebased(plan, fresh) == carried_over(plan, fresh, at),
        normalized(rebased(plan, fresh)) == normalized(carried_over(plan, fresh, at)),
{
    assert forall|i: int| 0 <= i < fresh.len() implies rebased(plan, fresh)[i] == carried_over(
        plan,
        fresh,
        at,
    )[i] by {
        match at[i] {
            Some(j) => rebasing_keeps_the_desired_states(plan, fresh, i, j),
            None => rebasing_leaves_new_displays_alone(plan, fresh, i),
        }
    }
    assert(rebased(plan, fresh) =~= carried_over(plan, fresh, at));
}

/// Packing puts each packed output right of everything packed before it, so
/// no two packed outputs overlap horizontally.
pub proof fn compacted_outputs_do_not_overlap(s: Seq<PlannedOutput>, i: int, j: int)
    requires
        packed_width(s, s.len() as int) <= i32::MAX,
        0 <= i < s.len(),
        0 <= j < s.len(),
        packed(s[i]),
        packed(s[j]),
        packs_before(s, j, i),
    ensures
        compacted(s)[j].position.0 + width_of(s[j]) <= compacted(s)[i].position.0,
{
    packing_gap(s, i, j, s.len() as int);
    width_bounds(s, i, s.len() as int);
    width_bounds(s, j, s.len() as int);
}

/// Packing leaves no gap: the first packed output stands at the left, and each
/// other one where the one packed right before it ends.
pub proof fn compacted_outputs_leave_no_gap(s: Seq<PlannedOutput>, i: int)
    requires
        packed_width(s, s.len() as int) <= i32::MAX,
        0 <= i < s.len(),
        packed(s[i]),
    ensures
        (forall|k: int| 0 <= k < s.len() ==> !packs_before(s, k, i))
            ==> compacted(s)[i].position.0 == 0,
        forall|j: int|
            0 <= j < s.len() && #[trigger] packs_before(s, j, i) && nothing_between(s, j, i)
                ==> compacted(s)[j].position.0 + width_of(s[j]) == compacted(s)[i].position.0,
{
    width_bounds(s, i, s.len() as int);
    if forall|k: int| 0 <= k < s.len() ==> !packs_before(s, k, i) {
        nothing_before(s, i, s.len() as int);
    }
    assert forall|j: int|
        0 <= j < s.len() && #[trigger] packs_before(s, j, i) && nothing_between(
            s,
            j,
            i,
        ) implies compacted(s)[j].position.0 + width_of(s[j]) == compacted(s)[i].position.0 by {
        width_bounds(s, j, s.len() as int);
        packing_step(s, i, j, s.len() as int);
    }
}

/// Whether no output is packed between two others.
pub open spec fn nothing_between(s: Seq<PlannedOutput>, j: int, i: int) -> bool {
    forall|k: int|
        0 <= k < s.len() ==> !(#[trigger] packs_before(s, j, k) && packed(s[k]) && packs_before(
            s,
            k,
            i,
        ))
}

proof fn nothing_before(s: Seq<PlannedOutput>, i: int, n: int)
    requires
        0 <= n <= s.len(),
        forall|k: int| 0 <= k < s.len() ==> !packs_before(s, k, i),
    ensures
        width_before(s, i, n) == 0,
    decreases n,
{
    if n > 0 {
        nothing_before(s, i, n - 1);
        assert(!packs_before(s, n - 1, i));
    }
}

proof fn packing_step(s: Seq<PlannedOutput>, i: int, j: int, n: int)
    requires
        0 <= n <= s.len(),
        0 <= j < s.len(),
        packs_before(s, j, i),
        nothing_between(s, j, i),
    ensures
        width_before(s, i, n) == width_before(s, j, n) + if j < n {
            width_of(s[j]) as int
        } else {
            0
        },
    decreases n,
{
    if n > 0 {
        let k = n - 1;
        packing_step(s, i, j, k);
        assert(!(packs_before(s, j, k) && packed(s[k]) && packs_before(s, k, i)));
        assert(packs_before(s, k, i) == (packs_before(s, k, j) || k == j));
    }
}

proof fn packing_gap(s: Seq<PlannedOutput>, i: int, j: int, n: int)
    requires
        0 <= n <= s.len(),
        packs_before(s, j, i),
    ensures
        width_before(s, i, n) >= width_before(s, j, n) + if 0 <= j < n {
            width_of(s[j]) as int
        } else {
            0
        },
    decreases n,
{
    if n > 0 {
        packing_gap(s, i, j, n - 1);
        width_nonnegative(s[n - 1]);
    }
}

/// With no primary among the enabled outputs, the one that is promoted has no enabled
/// output further left, and none as far left and higher up.
pub proof fn promoted_primary_is_leftmost_then_topmost(s: Seq<PlannedOutput>, k: int)
    requires
        0 <= k < s.len(),
        s[k].enabled,
        !s[k].primary,
        normalized(s)[k].primary,
    ensures
        forall|j: int|
            0 <= j < s.len() && (#[trigger] s[j]).enabled ==> s[j].position.0 > s[k].position.0 || (
            s[j].position.0 == s[k].position.0 && s[j].position.1 >= s[k].position.1),
{
    normalized_prefers_the_existing_primary(s, k);
    assert forall|j: int| 0 <= j < s.len() && (#[trigger] s[j]).enabled implies s[j].position.0
        > s[k].position.0 || (s[j].position.0 == s[k].position.0 && s[j].position.1
        >= s[k].position.1) by {
        assert(!before(s[j].position, s[k].position));
    }
}

/// At a scale of one an output is as wide as its mode, or as high as its mode after
/// an odd number of quarter turns. An output without a mode takes no room.
pub proof fn unscaled_output_is_as_wide_as_its_mode(o: PlannedOutput)
    requires
        o.scale.bits == 0x3ff0_0000_0000_0000,
    ensures
        o.mode is None ==> width_of(o) == 0,
        o.mode matches Some(m) ==> {
            &&& transform_code(o.transform) % 2 == 0 && m.width <= i32::MAX ==> width_of(o)
                == m.width
            &&& transform_code(o.transform) % 2 == 1 && m.height <= i32::MAX ==> width_of(o)
                == m.height
        },
{
    encoding_counts_quarter_turns(o.transform);
    if o.mode is Some {
        let a = raw_width(o.mode->0, swaps_axes(o.transform)) as nat;
        vstd::arithmetic::power2::lemma2_to64();
        vstd::arithmetic::power2::lemma2_to64_rest();
        dividing_by_one_changes_nothing(a, i32::MAX as nat);
    }
}

/// Packing keeps the order from left to right, and every height: what stood further
/// left is packed to the left of what stood further right.
pub proof fn packing_keeps_the_order(s: Seq<PlannedOutput>, i: int, j: int)
    requires
        packed_width(s, s.len() as int) <= i32::MAX,
        0 <= i < s.len(),
        0 <= j < s.len(),
        s[i].enabled && s[i].mode is Some,
        s[j].enabled && s[j].mode is Some,
        s[j].position.0 < s[i].position.0,
    ensures
        compacted(s)[j].position.0 + width_of(s[j]) <= compacted(s)[i].position.0,
        compacted(s)[i].position.1 == s[i].position.1,
        compacted(s)[i] == (PlannedOutput { position: compacted(s)[i].position, ..s[i] }),
{
    compacted_outputs_do_not_overlap(s, i, j);
}

/// Packing leaves outputs that are off, or have no mode, where they are.
pub proof fn packing_leaves_the_others_alone(s: Seq<PlannedOutput>, i: int)
    requires
        0 <= i < s.len(),
        !s[i].enabled || s[i].mode is None,
    ensures
        compacted(s).len() == s.len(),
        compacted(s)[i] == s[i],
{
}

} // verus!
