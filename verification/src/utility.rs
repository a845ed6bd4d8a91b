//! Loop matching: pairing every loop start with its loop end.

use std::collections::HashMap;
use vstd::prelude::*;

verus! {

broadcast use vstd::std_specs::hash::group_hash_axioms;

/// What an item means to loop matching.
#[derive(Debug, Clone, Copy, PartialEq, Eq, Structural, PartialOrd, Ord, Hash)]
pub enum LoopRole {
    Start,
    End,
    Neither,
}

/// An item that can say whether it opens or closes a loop.
pub trait LoopCode {
    /// The role of this item; an item has exactly one.
    spec fn loop_role(&self) -> LoopRole;

    fn is_loop_start(&self) -> (b: bool)
        ensures
            b == (self.loop_role() == LoopRole::Start),
    ;

    fn is_loop_end(&self) -> (b: bool)
        ensures
            b == (self.loop_role() == LoopRole::End),
    ;
}

/// The bracket without a partner: `Left` is a loop start, `Right` a loop end,
/// each with its index among the items that were matched.
#[derive(Debug, Clone, Copy, PartialEq, Eq, Structural, PartialOrd, Ord, Hash)]
pub enum ExtraParen {
    Left(usize),
    Right(usize),
}

/// The roles of a sequence of items, in order.
pub open spec fn roles_of<T: LoopCode>(items: Seq<T>) -> Seq<LoopRole> {
    Seq::new(items.len(), |i: int| items[i].loop_role())
}

/// What one item adds to the nesting depth.
pub open spec fn loop_delta(r: LoopRole) -> int {
    match r {
        LoopRole::Start => 1,
        LoopRole::End => -1,
        LoopRole::Neither => 0,
    }
}

/// Loop starts minus loop ends among the first `i` items.
pub open spec fn loop_depth(roles: Seq<LoopRole>, i: int) -> int
    decreases i,
{
    if i <= 0 {
        0
    } else {
        loop_depth(roles, i - 1) + loop_delta(roles[i - 1])
    }
}

/// No loop end among the first `i` items lacks a start before it.
pub open spec fn never_negative(roles: Seq<LoopRole>, i: int) -> bool {
    forall|t: int| 0 <= t <= i ==> loop_depth(roles, t) >= 0
}

/// The start at `s` and the end at `e` enclose one loop: between them the
/// depth stays above the depth before `s`, and after `e` it is back there.
pub open spec fn is_pair(roles: Seq<LoopRole>, s: int, e: int) -> bool {
    &&& 0 <= s < e < roles.len()
    &&& roles[s] == LoopRole::Start
    &&& roles[e] == LoopRole::End
    &&& loop_depth(roles, e + 1) == loop_depth(roles, s)
    &&& forall|t: int| s < t <= e ==> loop_depth(roles, t) > loop_depth(roles, s)
}

/// The start at `s` is still open after the first `upto` items.
pub open spec fn open_until(roles: Seq<LoopRole>, s: int, upto: int) -> bool {
    &&& 0 <= s < upto <= roles.len()
    &&& roles[s] == LoopRole::Start
    &&& forall|t: int| s < t <= upto ==> loop_depth(roles, t) > loop_depth(roles, s)
}

/// The end at `e` is the first loop end that has no start before it.
pub open spec fn first_unmatched_end(roles: Seq<LoopRole>, e: int) -> bool {
    &&& 0 <= e < roles.len()
    &&& never_negative(roles, e)
    &&& loop_depth(roles, e + 1) < 0
}

/// Every end has its start, and the start at `s` is the last one that no end
/// closes.
pub open spec fn last_unmatched_start(roles: Seq<LoopRole>, s: int) -> bool {
    &&& never_negative(roles, roles.len() as int)
    &&& open_until(roles, s, roles.len() as int)
    &&& forall|s2: int| s < s2 < roles.len() ==> !open_until(roles, s2, roles.len() as int)
}

/// Every start has its end and every end its start.
pub open spec fn balanced(roles: Seq<LoopRole>) -> bool {
    &&& never_negative(roles, roles.len() as int)
    &&& loop_depth(roles, roles.len() as int) == 0
}

/// The index of the bracket that makes a loop with the bracket at `i`.
pub open spec fn partner(roles: Seq<LoopRole>, i: int) -> int {
    choose|j: int| is_pair(roles, i, j) || is_pair(roles, j, i)
}

/// The two directions of a loop table, as maps.
pub ghost struct LoopMatchesView {
    pub start_to_end: Map<usize, usize>,
    pub end_to_start: Map<usize, usize>,
}

/// The table holds exactly the loops of `roles`, in both directions.
pub open spec fn is_table_of(table: LoopMatchesView, roles: Seq<LoopRole>) -> bool {
    &&& forall|s: usize, e: usize| #[trigger]
        table.start_to_end.contains_pair(s, e) <==> is_pair(roles, s as int, e as int)
    &&& forall|e: usize, s: usize| #[trigger]
        table.end_to_start.contains_pair(e, s) <==> is_pair(roles, s as int, e as int)
}

/// For every loop, where it ends and where it starts.
#[derive(Debug, PartialEq, Eq)]
pub struct LoopMatches {
    start_to_end: HashMap<usize, usize>,
    end_to_start: HashMap<usize, usize>,
}

impl View for LoopMatches {
    type V = LoopMatchesView;

    closed spec fn view(&self) -> LoopMatchesView {
        LoopMatchesView { start_to_end: self.start_to_end@, end_to_start: self.end_to_start@ }
    }
}

impl LoopMatches {
    /// The start of the loop that ends at `end`.
    pub fn get_matching_start(&self, end: usize) -> (start: usize)
        requires
            self@.end_to_start.contains_key(end),
        ensures
            start == self@.end_to_start[end],
    {
        let found = self.end_to_start.get(&end);
        *found.unwrap()
    }

    /// The end of the loop that starts at `start`.
    pub fn get_matching_end(&self, start: usize) -> (end: usize)
        requires
            self@.start_to_end.contains_key(start),
        ensures
            end == self@.start_to_end[start],
    {
        let found = self.start_to_end.get(&start);
        *found.unwrap()
    }

    /// The table from each loop start to its end.
    pub fn start_to_end(&self) -> (m: &HashMap<usize, usize>)
        ensures
            m@ == self@.start_to_end,
    {
        &self.start_to_end
    }

    /// The table from each loop end to its start.
    pub fn end_to_start(&self) -> (m: &HashMap<usize, usize>)
        ensures
            m@ == self@.end_to_start,
    {
        &self.end_to_start
    }
}

/// A loop start has at most one end.
pub proof fn lemma_one_end(roles: Seq<LoopRole>, s: int, e1: int, e2: int)
    requires
        is_pair(roles, s, e1),
        is_pair(roles, s, e2),
    ensures
        e1 == e2,
{
    if e1 < e2 {
        assert(loop_depth(roles, e1 + 1) > loop_depth(roles, s));
    } else if e2 < e1 {
        assert(loop_depth(roles, e2 + 1) > loop_depth(roles, s));
    }
}

/// A loop end has at most one start.
pub proof fn lemma_one_start(roles: Seq<LoopRole>, s1: int, s2: int, e: int)
    requires
        is_pair(roles, s1, e),
        is_pair(roles, s2, e),
    ensures
        s1 == s2,
{
    if s1 < s2 {
        assert(loop_depth(roles, s2) > loop_depth(roles, s1));
    } else if s2 < s1 {
        assert(loop_depth(roles, s1) > loop_depth(roles, s2));
    }
}

/// Looks for the end of the loop that starts at `s`, from `t` on.
proof fn lemma_find_end(roles: Seq<LoopRole>, s: int, t: int) -> (e: int)
    requires
        balanced(roles),
        0 <= s < t <= roles.len(),
        roles[s] == LoopRole::Start,
        forall|u: int| s < u <= t ==> loop_depth(roles, u) > loop_depth(roles, s),
    ensures
        is_pair(roles, s, e),
    decreases roles.len() - t,
{
    if t == roles.len() {
        assert(loop_depth(roles, s) >= 0);
        assert(loop_depth(roles, t) > loop_depth(roles, s));
        arbitrary()
    } else {
        assert(loop_depth(roles, t + 1) == loop_depth(roles, t) + loop_delta(roles[t]));
        if loop_depth(roles, t + 1) > loop_depth(roles, s) {
            lemma_find_end(roles, s, t + 1)
        } else {
            t
        }
    }
}

/// Looks for the start of the loop that ends at `e`, from `t` down.
proof fn lemma_find_start(roles: Seq<LoopRole>, e: int, t: int) -> (s: int)
    requires
        balanced(roles),
        0 <= t <= e < roles.len(),
        roles[e] == LoopRole::End,
        forall|u: int| t <= u <= e ==> #[trigger] loop_depth(roles, u) > loop_depth(roles, e + 1),
    ensures
        is_pair(roles, s, e),
    decreases t,
{
    assert(loop_depth(roles, e + 1) >= 0);
    if t == 0 {
        assert(loop_depth(roles, 0) > loop_depth(roles, e + 1));
        arbitrary()
    } else {
        assert(loop_depth(roles, t) == loop_depth(roles, t - 1) + loop_delta(roles[t - 1]));
        if loop_depth(roles, t - 1) > loop_depth(roles, e + 1) {
            lemma_find_start(roles, e, t - 1)
        } else {
            t - 1
        }
    }
}

/// Where every bracket has its partner, the partner of a loop start is the
/// end of its loop, and the partner of a loop end is the start of its loop.
pub proof fn lemma_partner(roles: Seq<LoopRole>, i: int)
    requires
        balanced(roles),
        0 <= i < roles.len(),
        roles[i] != LoopRole::Neither,
    ensures
        roles[i] == LoopRole::Start ==> is_pair(roles, i, partner(roles, i)),
        roles[i] == LoopRole::End ==> is_pair(roles, partner(roles, i), i),
{
    if roles[i] == LoopRole::Start {
        assert(loop_depth(roles, i + 1) == loop_depth(roles, i) + loop_delta(roles[i]));
        let e = lemma_find_end(roles, i, i + 1);
        assert(is_pair(roles, i, e) || is_pair(roles, e, i));
    } else {
        assert(loop_depth(roles, i + 1) == loop_depth(roles, i) + loop_delta(roles[i]));
        let s = lemma_find_start(roles, i, i);
        assert(is_pair(roles, i, s) || is_pair(roles, s, i));
    }
}

/// A table of the loops of `roles` gives every bracket its partner.
pub proof fn lemma_table_gives_partner(table: LoopMatchesView, roles: Seq<LoopRole>, i: usize)
    requires
        balanced(roles),
        is_table_of(table, roles),
        i < roles.len() <= usize::MAX,
        roles[i as int] != LoopRole::Neither,
    ensures
        0 <= partner(roles, i as int) < roles.len(),
        roles[i as int] == LoopRole::Start ==> table.start_to_end.contains_pair(
            i,
            partner(roles, i as int) as usize,
        ),
        roles[i as int] == LoopRole::End ==> table.end_to_start.contains_pair(
            i,
            partner(roles, i as int) as usize,
        ),
{
    lemma_partner(roles, i as int);
    let p = partner(roles, i as int) as usize;
    if roles[i as int] == LoopRole::Start {
        assert(table.start_to_end.contains_pair(i, p) <==> is_pair(roles, i as int, p as int));
    } else {
        assert(table.end_to_start.contains_pair(i, p) <==> is_pair(roles, p as int, i as int));
    }
}

/// A sequence of items has one outcome: its brackets are balanced, or one
/// index is its first end without a start, or one index is its last start
/// without an end.
pub proof fn lemma_one_outcome(roles: Seq<LoopRole>, a: int, b: int)
    ensures
        first_unmatched_end(roles, a) ==> !balanced(roles) && !last_unmatched_start(roles, b),
        last_unmatched_start(roles, a) ==> !balanced(roles),
        first_unmatched_end(roles, a) && first_unmatched_end(roles, b) ==> a == b,
        last_unmatched_start(roles, a) && last_unmatched_start(roles, b) ==> a == b,
{
    if first_unmatched_end(roles, a) {
        assert(loop_depth(roles, a + 1) < 0);
        if first_unmatched_end(roles, b) {
            if a < b {
                assert(loop_depth(roles, a + 1) >= 0);
            } else if b < a {
                assert(loop_depth(roles, b + 1) >= 0);
            }
        }
    }
    if last_unmatched_start(roles, a) {
        assert(loop_depth(roles, a) >= 0);
        assert(loop_depth(roles, roles.len() as int) > loop_depth(roles, a));
    }
}

/// The start at `s`, at nesting level `level`, is still open after `upto` items.
spec fn pending_at(roles: Seq<LoopRole>, s: int, level: int, upto: int) -> bool {
    &&& open_until(roles, s, upto)
    &&& loop_depth(roles, s) == level
}

/// Matches the loop starts and ends of `codes` with a stack of open starts.
///
/// An end without a start fails at once, so the first such end is reported;
/// starts without an end are found when the items are used up, and the one
/// opened last is reported.
pub fn populate_loop_boundaries<T: LoopCode>(codes: &[T]) -> (r: Result<LoopMatches, ExtraParen>)
    ensures
        r is Ok <==> balanced(roles_of(codes@)),
        match r {
            Ok(table) => balanced(roles_of(codes@)) && is_table_of(table@, roles_of(codes@)),
            Err(ExtraParen::Right(e)) => first_unmatched_end(roles_of(codes@), e as int),
            Err(ExtraParen::Left(s)) => last_unmatched_start(roles_of(codes@), s as int),
        },
{
    let mut start_to_end: HashMap<usize, usize> = HashMap::with_capacity(1_000);
    let mut end_to_start: HashMap<usize, usize> = HashMap::with_capacity(1_000);
    let mut starts: Vec<usize> = Vec::with_capacity(10);
    let ghost roles = roles_of(codes@);
    let mut idx: usize = 0;
    while idx < codes.len()
        invariant
            idx <= codes.len(),
            roles == roles_of(codes@),
            never_negative(roles, idx as int),
            starts.len() == loop_depth(roles, idx as int),
            forall|j: int|
                0 <= j < starts.len() ==> pending_at(roles, #[trigger] starts[j] as int, j, idx as int),
            forall|s: usize, e: usize| #[trigger]
                start_to_end@.contains_pair(s, e) <==> e < idx && is_pair(roles, s as int, e as int),
            forall|e: usize, s: usize| #[trigger]
                end_to_start@.contains_pair(e, s) <==> e < idx && is_pair(roles, s as int, e as int),
        decreases codes.len() - idx,
    {
        let code = &codes[idx];
        let ghost depth = loop_depth(roles, idx as int);
        assert(loop_depth(roles, idx + 1) == depth + loop_delta(roles[idx as int]));
        if code.is_loop_start() {
            starts.push(idx);
        } else if code.is_loop_end() {
            match starts.pop() {
                None => {
                    proof {
                        lemma_one_outcome(roles, idx as int, 0);
                    }
                    return Err(ExtraParen::Right(idx));
                },
                Some(start_idx) => {
                    assert(pending_at(roles, start_idx as int, depth - 1, idx as int));
                    assert(is_pair(roles, start_idx as int, idx as int));
                    assert forall|s: int| is_pair(roles, s, idx as int) implies s == start_idx by {
                        if s < start_idx {
                            assert(loop_depth(roles, start_idx as int) > loop_depth(roles, s));
                        } else if s > start_idx {
                            assert(loop_depth(roles, s) > loop_depth(roles, start_idx as int));
                        }
                    }
                    assert forall|e: int| e < idx implies !is_pair(roles, start_idx as int, e) by {
                        if is_pair(roles, start_idx as int, e) {
                            assert(loop_depth(roles, e + 1) > loop_depth(roles, start_idx as int));
                        }
                    }
                    let ghost old_forth = start_to_end@;
                    let ghost old_back = end_to_start@;
                    let existed = start_to_end.insert(start_idx, idx);
                    assert(existed is None) by {
                        if old_forth.contains_key(start_idx) {
                            assert(old_forth.contains_pair(start_idx, old_forth[start_idx]));
                        }
                    }
                    let existed = end_to_start.insert(idx, start_idx);
                    assert(existed is None) by {
                        if old_back.contains_key(idx) {
                            assert(old_back.contains_pair(idx, old_back[idx]));
                        }
                    }
                    assert forall|s: usize, e: usize| #[trigger]
                        start_to_end@.contains_pair(s, e) <==> e < idx + 1 && is_pair(
                            roles,
                            s as int,
                            e as int,
                        ) by {
                        assert(old_forth.contains_pair(s, e) <==> e < idx && is_pair(
                            roles,
                            s as int,
                            e as int,
                        ));
                    }
                    assert forall|e: usize, s: usize| #[trigger]
                        end_to_start@.contains_pair(e, s) <==> e < idx + 1 && is_pair(
                            roles,
                            s as int,
                            e as int,
                        ) by {
                        assert(old_back.contains_pair(e, s) <==> e < idx && is_pair(
                            roles,
                            s as int,
                            e as int,
                        ));
                    }
                },
            }
        }
        idx += 1;
    }
    if starts.len() > 0 {
        let last = starts[starts.len() - 1];
        proof {
            let n = codes.len() as int;
            assert(pending_at(roles, last as int, starts.len() - 1, n));
            assert forall|s2: int| last < s2 < n implies !open_until(roles, s2, n) by {
                if open_until(roles, s2, n) {
                    assert(loop_depth(roles, s2) > loop_depth(roles, last as int));
                    assert(loop_depth(roles, n) > loop_depth(roles, s2));
                }
            }
            lemma_one_outcome(roles, last as int, 0);
        }
        return Err(ExtraParen::Left(last));
    }
    Ok(LoopMatches { start_to_end, end_to_start })
}

} // verus!
