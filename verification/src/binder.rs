//! The order in which the lines of a tseq text are built: a line is built after the
//! lines it refers to.
use vstd::prelude::*;

use crate::grammar::{SExpression, SFragment, SSequence};
use crate::parser::{Expression, PFragment, PSequence};

verus! {

/// Element `i` may be scheduled after `sched`: every element it depends on is in `sched`.
pub open spec fn ready(deps: Seq<Seq<usize>>, sched: Seq<usize>, i: int) -> bool {
    forall|j: int| 0 <= j < deps[i].len() ==> #[trigger] sched.contains(deps[i][j])
}

/// One pass over the elements from `i`: each element that is not scheduled yet and is
/// ready is scheduled at once, in the order of the elements.
pub open spec fn pass_from(deps: Seq<Seq<usize>>, sched: Seq<usize>, i: int) -> Seq<usize>
    decreases deps.len() - i,
{
    if i < 0 || i >= deps.len() {
        sched
    } else if !sched.contains(i as usize) && ready(deps, sched, i) {
        pass_from(deps, sched.push(i as usize), i + 1)
    } else {
        pass_from(deps, sched, i + 1)
    }
}

/// Up to `k` passes, stopping after the pass that schedules every element.
pub open spec fn passes(deps: Seq<Seq<usize>>, sched: Seq<usize>, k: nat) -> Seq<usize>
    decreases k,
{
    if k == 0 {
        sched
    } else {
        let next = pass_from(deps, sched, 0);
        if next.len() == deps.len() {
            next
        } else {
            passes(deps, next, (k - 1) as nat)
        }
    }
}

/// The elements scheduled by as many passes as there are elements.
pub open spec fn schedule(deps: Seq<Seq<usize>>) -> Seq<usize> {
    passes(deps, Seq::empty(), deps.len())
}

/// The elements that `sched` leaves out, in increasing order.
pub open spec fn unscheduled(n: nat, sched: Seq<usize>) -> Seq<usize> {
    Seq::new(n, |i: int| i as usize).filter(|i: usize| !sched.contains(i))
}

/// `o` is an order of all the elements in which each element comes after those it depends on.
pub open spec fn is_schedule(deps: Seq<Seq<usize>>, o: Seq<usize>) -> bool {
    &&& o.len() == deps.len()
    &&& o.no_duplicates()
    &&& forall|p: int| 0 <= p < o.len() ==> #[trigger] o[p] < deps.len()
    &&& forall|p: int, j: int|
        0 <= p < o.len() && 0 <= j < deps[o[p] as int].len() ==> #[trigger] o.take(p).contains(
            #[trigger] deps[o[p] as int][j],
        )
}

/// `sched` is the beginning of such an order.
pub open spec fn partial_schedule(deps: Seq<Seq<usize>>, sched: Seq<usize>) -> bool {
    &&& sched.no_duplicates()
    &&& forall|p: int| 0 <= p < sched.len() ==> #[trigger] sched[p] < deps.len()
    &&& forall|p: int, j: int|
        0 <= p < sched.len() && 0 <= j < deps[sched[p] as int].len() ==> #[trigger] sched.take(
            p,
        ).contains(#[trigger] deps[sched[p] as int][j])
}

/// No element that is left out of `sched` is ready.
pub open spec fn stuck(deps: Seq<Seq<usize>>, sched: Seq<usize>) -> bool {
    forall|i: int| 0 <= i < deps.len() && !sched.contains(i as usize) ==> !ready(deps, sched, i)
}

proof fn lemma_push_partial(deps: Seq<Seq<usize>>, sched: Seq<usize>, i: int)
    requires
        partial_schedule(deps, sched),
        0 <= i < deps.len() <= usize::MAX,
        !sched.contains(i as usize),
        ready(deps, sched, i),
    ensures
        partial_schedule(deps, sched.push(i as usize)),
{
    let s2 = sched.push(i as usize);
    assert forall|a: int, b: int| 0 <= a < s2.len() && 0 <= b < s2.len() && a != b implies s2[a]
        != s2[b] by {
        if a == sched.len() {
            assert(sched.contains(s2[b]));
        } else if b == sched.len() {
            assert(sched.contains(s2[a]));
        }
    }
    assert forall|p: int, j: int|
        0 <= p < s2.len() && 0 <= j < deps[s2[p] as int].len() implies #[trigger] s2.take(
        p,
    ).contains(#[trigger] deps[s2[p] as int][j]) by {
        if p == sched.len() {
            assert(s2.take(p) =~= sched);
            assert(sched.contains(deps[i][j]));
        } else {
            assert(s2.take(p) =~= sched.take(p));
            assert(sched.take(p).contains(deps[sched[p] as int][j]));
        }
    }
}

proof fn lemma_pass_partial(deps: Seq<Seq<usize>>, sched: Seq<usize>, i: int)
    requires
        deps.len() <= usize::MAX,
        partial_schedule(deps, sched),
        0 <= i,
    ensures
        partial_schedule(deps, pass_from(deps, sched, i)),
        pass_from(deps, sched, i).len() >= sched.len(),
        pass_from(deps, sched, i).take(sched.len() as int) == sched,
    decreases deps.len() - i,
{
    if i >= deps.len() {
        assert(sched.take(sched.len() as int) =~= sched);
    } else if !sched.contains(i as usize) && ready(deps, sched, i) {
        lemma_push_partial(deps, sched, i);
        lemma_pass_partial(deps, sched.push(i as usize), i + 1);
        let r = pass_from(deps, sched.push(i as usize), i + 1);
        assert(r.take(sched.len() as int) =~= r.take(sched.len() + 1int).take(sched.len() as int));
        assert(sched.push(i as usize).take(sched.len() as int) =~= sched);
    } else {
        lemma_pass_partial(deps, sched, i + 1);
    }
}

/// A pass that schedules nothing leaves every unscheduled element unready.
proof fn lemma_pass_stuck(deps: Seq<Seq<usize>>, sched: Seq<usize>, i: int)
    requires
        deps.len() <= usize::MAX,
        partial_schedule(deps, sched),
        0 <= i,
        pass_from(deps, sched, i).len() == sched.len(),
    ensures
        forall|j: int|
            i <= j < deps.len() && !sched.contains(j as usize) ==> !ready(deps, sched, j),
    decreases deps.len() - i,
{
    if i >= deps.len() {
    } else if !sched.contains(i as usize) && ready(deps, sched, i) {
        lemma_push_partial(deps, sched, i);
        lemma_pass_partial(deps, sched.push(i as usize), i + 1);
    } else {
        lemma_pass_stuck(deps, sched, i + 1);
    }
}

/// A pass over a stuck schedule changes nothing.
proof fn lemma_stuck_pass(deps: Seq<Seq<usize>>, sched: Seq<usize>, i: int)
    requires
        stuck(deps, sched),
        0 <= i,
    ensures
        pass_from(deps, sched, i) == sched,
    decreases deps.len() - i,
{
    if i < deps.len() {
        lemma_stuck_pass(deps, sched, i + 1);
    }
}

/// Distinct elements below `n` are at most `n`.
proof fn lemma_distinct_below(s: Seq<usize>, n: nat)
    requires
        s.no_duplicates(),
        forall|p: int| 0 <= p < s.len() ==> #[trigger] s[p] < n,
    ensures
        s.len() <= n,
    decreases n,
{
    if n == 0 {
        if s.len() > 0 {
            assert(s[0] < 0);
        }
    } else {
        let top = (n - 1) as usize;
        if s.contains(top) {
            let k = s.index_of(top);
            let t = s.remove(k);
            assert forall|p: int| 0 <= p < t.len() implies #[trigger] t[p] < (n - 1) as nat by {
                if p < k {
                    assert(t[p] == s[p]);
                } else {
                    assert(t[p] == s[p + 1]);
                }
            }
            assert forall|a: int, b: int| 0 <= a < t.len() && 0 <= b < t.len() && a != b implies t[a]
                != t[b] by {
                let sa = if a < k { a } else { a + 1 };
                let sb = if b < k { b } else { b + 1 };
                assert(t[a] == s[sa] && t[b] == s[sb]);
            }
            lemma_distinct_below(t, (n - 1) as nat);
        } else {
            assert forall|p: int| 0 <= p < s.len() implies #[trigger] s[p] < (n - 1) as nat by {
                if s[p] == top {
                    assert(s.contains(top));
                }
            }
            lemma_distinct_below(s, (n - 1) as nat);
        }
    }
}

/// After `k` passes, every element is scheduled, or no pass can schedule another, or the
/// passes scheduled at least `k` more elements.
proof fn lemma_passes(deps: Seq<Seq<usize>>, sched: Seq<usize>, k: nat)
    requires
        deps.len() <= usize::MAX,
        partial_schedule(deps, sched),
    ensures
        partial_schedule(deps, passes(deps, sched, k)),
        passes(deps, sched, k).len() == deps.len() || stuck(deps, passes(deps, sched, k))
            || passes(deps, sched, k).len() >= sched.len() + k,
    decreases k,
{
    if k > 0 {
        let next = pass_from(deps, sched, 0);
        lemma_pass_partial(deps, sched, 0);
        if next.len() != deps.len() {
            if next.len() == sched.len() {
                assert(next.take(sched.len() as int) =~= next);
                lemma_pass_stuck(deps, sched, 0);
                assert(stuck(deps, next));
                lemma_stuck_passes(deps, next, (k - 1) as nat);
            } else {
                lemma_passes(deps, next, (k - 1) as nat);
            }
        }
    }
}

proof fn lemma_stuck_passes(deps: Seq<Seq<usize>>, sched: Seq<usize>, k: nat)
    requires
        stuck(deps, sched),
    ensures
        passes(deps, sched, k) == sched,
    decreases k,
{
    if k > 0 {
        lemma_stuck_pass(deps, sched, 0);
        lemma_stuck_passes(deps, sched, (k - 1) as nat);
    }
}

/// Distinct elements below `n` that leave out `h` are fewer than `n`.
proof fn lemma_distinct_below_hole(s: Seq<usize>, n: nat, h: usize)
    requires
        s.no_duplicates(),
        forall|p: int| 0 <= p < s.len() ==> #[trigger] s[p] < n,
        h < n,
        !s.contains(h),
    ensures
        s.len() < n,
{
    let t = s.map_values(|x: usize| if x > h { (x - 1) as usize } else { x });
    assert forall|p: int| 0 <= p < t.len() implies #[trigger] t[p] < (n - 1) as nat by {
        assert(s[p] != h) by {
            if s[p] == h {
                assert(s.contains(h));
            }
        }
    }
    assert forall|a: int, b: int| 0 <= a < t.len() && 0 <= b < t.len() && a != b implies t[a]
        != t[b] by {
        assert(s[a] != h) by {
            if s[a] == h {
                assert(s.contains(h));
            }
        }
        assert(s[b] != h) by {
            if s[b] == h {
                assert(s.contains(h));
            }
        }
    }
    lemma_distinct_below(t, (n - 1) as nat);
}

/// Distinct elements that all belong to `b` are at most as many as the elements of `b`.
proof fn lemma_distinct_within(a: Seq<usize>, b: Seq<usize>)
    requires
        a.no_duplicates(),
        forall|p: int| 0 <= p < a.len() ==> b.contains(#[trigger] a[p]),
    ensures
        a.len() <= b.len(),
{
    a.unique_seq_to_set();
    b.lemma_cardinality_of_set();
    assert(a.to_set().subset_of(b.to_set()));
    vstd::set_lib::lemma_len_subset(a.to_set(), b.to_set());
}

/// The first position of `o` whose element `sched` leaves out, from `p` on.
proof fn lemma_first_left_out(o: Seq<usize>, sched: Seq<usize>, p: int) -> (q: int)
    requires
        0 <= p <= o.len(),
        forall|r: int| 0 <= r < p ==> sched.contains(#[trigger] o[r]),
        exists|r: int| p <= r < o.len() && !sched.contains(o[r]),
    ensures
        p <= q < o.len(),
        !sched.contains(o[q]),
        forall|r: int| 0 <= r < q ==> sched.contains(#[trigger] o[r]),
    decreases o.len() - p,
{
    if !sched.contains(o[p]) {
        p
    } else {
        lemma_first_left_out(o, sched, p + 1)
    }
}

/// A stuck partial schedule that leaves an element out cannot be completed: no order of
/// all the elements puts each after those it depends on.
proof fn lemma_stuck_no_schedule(deps: Seq<Seq<usize>>, sched: Seq<usize>, i0: int, o: Seq<usize>)
    requires
        partial_schedule(deps, sched),
        stuck(deps, sched),
        0 <= i0 < deps.len(),
        !sched.contains(i0 as usize),
    ensures
        !is_schedule(deps, o),
{
    if is_schedule(deps, o) {
        if forall|r: int| 0 <= r < o.len() ==> sched.contains(#[trigger] o[r]) {
            lemma_distinct_within(o, sched);
            lemma_distinct_below_hole(sched, deps.len(), i0 as usize);
        } else {
            let q = lemma_first_left_out(o, sched, 0);
            let x = o[q] as int;
            assert(!ready(deps, sched, x));
            let j = choose|j: int| 0 <= j < deps[x].len() && !sched.contains(deps[x][j]);
            assert(o.take(q).contains(deps[o[q] as int][j]));
            let r = choose|r: int| 0 <= r < o.take(q).len() && o.take(q)[r] == deps[x][j];
            assert(o[r] == deps[x][j]);
        }
    }
}

/// Why the elements cannot be scheduled: these elements depend on one another (or on an
/// element that does not exist), in increasing order.
#[derive(Debug, PartialEq)]
pub enum SchedulingError {
    MutuallyDependent(Vec<usize>),
}

fn contains(v: &Vec<usize>, x: usize) -> (r: bool)
    ensures
        r == v@.contains(x),
{
    let mut k: usize = 0;
    while k < v.len()
        invariant
            k <= v.len(),
            forall|j: int| 0 <= j < k ==> v@[j] != x,
        decreases v.len() - k,
    {
        if v[k] == x {
            return true;
        }
        k += 1;
    }
    false
}

/// Every element of `deps` is in `scheduled`.
fn all_scheduled(deps: &Vec<usize>, scheduled: &Vec<usize>) -> (r: bool)
    ensures
        r == forall|j: int| 0 <= j < deps@.len() ==> #[trigger] scheduled@.contains(deps@[j]),
{
    let mut j: usize = 0;
    while j < deps.len()
        invariant
            j <= deps.len(),
            forall|k: int| 0 <= k < j ==> #[trigger] scheduled@.contains(deps@[k]),
        decreases deps.len() - j,
    {
        if !contains(scheduled, deps[j]) {
            return false;
        }
        j += 1;
    }
    true
}

/// Orders elements so that each comes after the elements it depends on
/// (`elements_deps[i]` holds the indexes of the elements that element `i` depends on).
///
/// The order is built by passes over the elements in increasing index order: a pass
/// schedules every element that is not scheduled yet and whose dependencies are all
/// scheduled. When the passes leave elements out, they depend on one another and the
/// elements left out are the error.
pub fn elements_scheduling(elements_deps: &Vec<Vec<usize>>) -> (r: Result<Vec<usize>, SchedulingError>)
    ensures
        r matches Ok(v) ==> v@ == schedule(elements_deps.deep_view()) && is_schedule(
            elements_deps.deep_view(),
            v@,
        ),
        r matches Err(SchedulingError::MutuallyDependent(rest)) ==> rest@ == unscheduled(
            elements_deps@.len(),
            schedule(elements_deps.deep_view()),
        ) && rest@.len() > 0 && forall|o: Seq<usize>| !is_schedule(elements_deps.deep_view(), o),
        r is Ok <==> exists|o: Seq<usize>| is_schedule(elements_deps.deep_view(), o),
{
    let n = elements_deps.len();
    let ghost deps = elements_deps.deep_view();
    assert forall|i: int| 0 <= i < n implies #[trigger] deps[i] == elements_deps@[i]@ by {
        assert(deps[i] =~= elements_deps@[i]@);
    }
    let mut to_schedule: Vec<usize> = Vec::new();
    let mut i: usize = 0;
    while i < n
        invariant
            i <= n,
            to_schedule@.len() == i,
            forall|k: int| 0 <= k < i ==> to_schedule@[k] == k,
        decreases n - i,
    {
        to_schedule.push(i);
        i += 1;
    }
    let mut scheduled: Vec<usize> = Vec::new();
    let mut iterations: usize = 0;
    loop
        invariant_except_break
            schedule(deps) == passes(deps, scheduled@, (n - iterations) as nat),
        invariant
            n == deps.len() == elements_deps@.len(),
            forall|i: int| 0 <= i < n ==> #[trigger] deps[i] == elements_deps@[i]@,
            to_schedule@.len() == n,
            partial_schedule(deps, scheduled@),
            forall|k: int|
                0 <= k < n ==> #[trigger] to_schedule@[k] == if scheduled@.contains(k as usize) {
                    usize::MAX
                } else {
                    k as usize
                },
            iterations <= n,
        ensures
            schedule(deps) == scheduled@,
            partial_schedule(deps, scheduled@),
            to_schedule@.len() == n,
            forall|k: int|
                0 <= k < n ==> #[trigger] to_schedule@[k] == if scheduled@.contains(k as usize) {
                    usize::MAX
                } else {
                    k as usize
                },
        decreases n - iterations,
    {
        if iterations >= n {
            break;
        }
        let ghost start = scheduled@;
        let mut i: usize = 0;
        while i < n
            invariant
                n == deps.len() == elements_deps@.len(),
                forall|i: int| 0 <= i < n ==> #[trigger] deps[i] == elements_deps@[i]@,
                to_schedule@.len() == n,
                partial_schedule(deps, scheduled@),
                forall|k: int|
                    0 <= k < n ==> #[trigger] to_schedule@[k] == if scheduled@.contains(k as usize) {
                        usize::MAX
                    } else {
                        k as usize
                    },
                i <= n,
                pass_from(deps, start, 0) == pass_from(deps, scheduled@, i as int),
            decreases n - i,
        {
            let element_idx = to_schedule[i];
            proof {
                assert(deps[i as int] == elements_deps@[i as int]@);
                assert(element_idx < n <==> !scheduled@.contains(i));
            }
            if element_idx < n {
                if all_scheduled(&elements_deps[element_idx], &scheduled) {
                    proof {
                        lemma_push_partial(deps, scheduled@, i as int);
                    }
                    let ghost old = scheduled@;
                    scheduled.push(element_idx);
                    to_schedule.set(i, usize::MAX);
                    proof {
                        assert forall|k: int| 0 <= k < n implies #[trigger] to_schedule@[k] == if scheduled@.contains(
                            k as usize,
                        ) {
                            usize::MAX
                        } else {
                            k as usize
                        } by {
                            if k != i {
                                assert(scheduled@.contains(k as usize) == old.contains(k as usize)) by {
                                    if scheduled@.contains(k as usize) {
                                        let w = choose|w: int| 0 <= w < scheduled@.len() && scheduled@[w] == k as usize;
                                        if w < old.len() {
                                            assert(old[w] == k as usize);
                                        }
                                    }
                                    if old.contains(k as usize) {
                                        let w = choose|w: int| 0 <= w < old.len() && old[w] == k as usize;
                                        assert(scheduled@[w] == k as usize);
                                    }
                                }
                            } else {
                                assert(scheduled@[old.len() as int] == i);
                            }
                        }
                    }
                }
            }
            i += 1;
        }
        proof {
            lemma_pass_partial(deps, start, 0);
            assert(pass_from(deps, scheduled@, n as int) == scheduled@);
        }
        if scheduled.len() == n {
            break;
        }
        iterations += 1;
    }
    proof {
        lemma_passes(deps, Seq::empty(), n as nat);
    }
    if scheduled.len() < n {
        let mut rest: Vec<usize> = Vec::new();
        let mut k: usize = 0;
        proof {
            reveal(Seq::filter);
            assert(Seq::new(0, |i: int| i as usize).filter(|i: usize| !scheduled@.contains(i)) =~= Seq::<usize>::empty());
        }
        while k < n
            invariant
                k <= n,
                to_schedule@.len() == n,
                forall|j: int|
                    0 <= j < n ==> #[trigger] to_schedule@[j] == if scheduled@.contains(j as usize) {
                        usize::MAX
                    } else {
                        j as usize
                    },
                rest@ == unscheduled(k as nat, scheduled@),
            decreases n - k,
        {
            proof {
                reveal(Seq::filter);
                assert(Seq::new((k + 1) as nat, |i: int| i as usize).drop_last() =~= Seq::new(k as nat, |i: int| i as usize));
            }
            if to_schedule[k] < n {
                rest.push(k);
            }
            k += 1;
        }
        proof {
            let ids = Seq::new(n as nat, |i: int| i as usize);
            if forall|i: int| 0 <= i < n ==> scheduled@.contains(#[trigger] ids[i]) {
                assert(ids.no_duplicates());
                lemma_distinct_within(ids, scheduled@);
            }
            let i0 = choose|i: int| 0 <= i < n && !scheduled@.contains(#[trigger] ids[i]);
            ids.lemma_filter_contains(|i: usize| !scheduled@.contains(i), i0);
            assert(stuck(deps, scheduled@));
            assert forall|o: Seq<usize>| !is_schedule(deps, o) by {
                lemma_stuck_no_schedule(deps, scheduled@, i0, o);
            }
        }
        Err(SchedulingError::MutuallyDependent(rest))
    } else {
        proof {
            lemma_distinct_below(scheduled@, n as nat);
            assert(is_schedule(deps, scheduled@));
        }
        Ok(scheduled)
    }
}

/// The identifiers, each followed by a space.
pub open spec fn joined_ids(ids: Seq<Seq<char>>) -> Seq<char>
    decreases ids.len(),
{
    if ids.len() == 0 {
        Seq::empty()
    } else {
        joined_ids(ids.drop_last()) + ids.last() + seq![' ']
    }
}

/// The message that reports elements of a type that depend on one another.
pub open spec fn mutually_dependent_message(elements_type: Seq<char>, ids: Seq<Seq<char>>) -> Seq<
    char,
> {
    "Mutually dependent "@ + elements_type + "s is forbidden! Concerned "@ + elements_type
        + "s : "@ + joined_ids(ids) + "."@
}

/// The message that reports elements of type `elements_type` that depend on one another,
/// given their identifiers.
pub fn scheduling_error_message(elements_type: &str, ids: &Vec<String>) -> (r: String)
    ensures
        r@ == mutually_dependent_message(elements_type@, ids.deep_view()),
{
    let mut r = String::new();
    r.append("Mutually dependent ");
    r.append(elements_type);
    r.append("s is forbidden! Concerned ");
    r.append(elements_type);
    r.append("s : ");
    let ghost prefix = r@;
    let mut i: usize = 0;
    assert(ids.deep_view().take(0) =~= Seq::<Seq<char>>::empty());
    while i < ids.len()
        invariant
            i <= ids@.len(),
            r@ == prefix + joined_ids(ids.deep_view().take(i as int)),
        decreases ids@.len() - i,
    {
        r.append(ids[i].as_str());
        r.append(" ");
        proof {
            reveal_strlit(" ");
            assert(ids.deep_view().take(i + 1).drop_last() =~= ids.deep_view().take(i as int));
            assert(r@ =~= prefix + joined_ids(ids.deep_view().take(i + 1)));
        }
        i += 1;
    }
    r.append(".");
    assert(ids.deep_view().take(ids@.len() as int) =~= ids.deep_view());
    r
}

/// The position of the first of `seqs` from `i` whose name is `id`; their count when
/// none is.
pub open spec fn sequence_position(seqs: Seq<SSequence>, id: Seq<char>, i: int) -> int
    decreases seqs.len() - i,
{
    if 0 <= i < seqs.len() && seqs[i].id != id {
        sequence_position(seqs, id, i + 1)
    } else {
        i
    }
}

/// The sequences that `fragments` refer to, by position in `seqs`, each once, in the
/// order of their first reference; or the first name that no sequence has.
pub open spec fn sequence_deps(seqs: Seq<SSequence>, fragments: Seq<SFragment>) -> Result<
    Seq<usize>,
    Seq<char>,
>
    decreases fragments.len(),
{
    if fragments.len() == 0 {
        Ok(Seq::empty())
    } else {
        match sequence_deps(seqs, fragments.drop_last()) {
            Err(id) => Err(id),
            Ok(d) => match fragments.last() {
                SFragment::Part(_) => Ok(d),
                SFragment::SeqRef(r) => {
                    let k = sequence_position(seqs, r.id, 0);
                    if k < seqs.len() {
                        if d.contains(k as usize) {
                            Ok(d)
                        } else {
                            Ok(d.push(k as usize))
                        }
                    } else {
                        Err(r.id)
                    }
                },
            },
        }
    }
}

/// The dependencies of the first `k` of `seqs`, or the first name that they refer to and
/// that no sequence has.
pub open spec fn sequences_deps(seqs: Seq<SSequence>, k: int) -> Result<Seq<Seq<usize>>, Seq<char>>
    decreases k,
{
    if k <= 0 {
        Ok(Seq::empty())
    } else {
        match sequences_deps(seqs, k - 1) {
            Err(id) => Err(id),
            Ok(dd) => match sequence_deps(seqs, seqs[k - 1].fragments) {
                Err(id) => Err(id),
                Ok(d) => Ok(dd.push(d)),
            },
        }
    }
}

fn sequence_position_of(sequences: &Vec<PSequence>, id: &str) -> (r: usize)
    ensures
        r as int == sequence_position(sequences.deep_view(), id@, 0),
        r <= sequences@.len(),
{
    let ghost seqs = sequences.deep_view();
    let mut k: usize = 0;
    while k < sequences.len()
        invariant
            k <= sequences@.len(),
            seqs == sequences.deep_view(),
            sequence_position(seqs, id@, 0) == sequence_position(seqs, id@, k as int),
        decreases sequences@.len() - k,
    {
        assert(seqs[k as int].id == sequences@[k as int].id@);
        if crate::text::str_eq(sequences[k].id.as_str(), id) {
            return k;
        }
        k += 1;
    }
    k
}

/// The sequences that `fragments` refer to (see [`sequence_deps`]); the error is the
/// first name that no sequence has.
pub fn sequence_dependencies(sequences: &Vec<PSequence>, fragments: &Vec<PFragment>) -> (r: Result<
    Vec<usize>,
    String,
>)
    ensures
        match sequence_deps(sequences.deep_view(), fragments.deep_view()) {
            Ok(d) => r matches Ok(v) && v@ == d,
            Err(id) => r matches Err(e) && e@ == id,
        },
{
    let ghost seqs = sequences.deep_view();
    let ghost frags = fragments.deep_view();
    let mut deps: Vec<usize> = Vec::new();
    let mut i: usize = 0;
    assert(frags.take(0) =~= Seq::<SFragment>::empty());
    while i < fragments.len()
        invariant
            i <= fragments@.len(),
            seqs == sequences.deep_view(),
            frags == fragments.deep_view(),
            sequence_deps(seqs, frags.take(i as int)) == Ok::<Seq<usize>, Seq<char>>(deps@),
        decreases fragments@.len() - i,
    {
        assert(frags.take(i + 1).drop_last() =~= frags.take(i as int));
        assert(frags.take(i + 1).last() == frags[i as int]);
        assert(frags[i as int] == fragments@[i as int].deep_view());
        match &fragments[i] {
            PFragment::Part(_) => {},
            PFragment::SeqRef(r) => {
                let k = sequence_position_of(sequences, r.id.as_str());
                if k == sequences.len() {
                    proof {
                        assert(sequence_deps(seqs, frags.take(i + 1)) == Err::<Seq<usize>, Seq<char>>(r.id@));
                        lemma_sequence_deps_error(seqs, frags, i as int + 1);
                    }
                    return Err(r.id.clone());
                }
                if !contains(&deps, k) {
                    deps.push(k);
                }
            },
        }
        i += 1;
    }
    assert(frags.take(i as int) =~= frags);
    Ok(deps)
}

/// Once the dependencies of a prefix of fragments fail, so do those of every longer one.
proof fn lemma_sequence_deps_error(seqs: Seq<SSequence>, frags: Seq<SFragment>, k: int)
    requires
        0 <= k <= frags.len(),
        sequence_deps(seqs, frags.take(k)) is Err,
    ensures
        sequence_deps(seqs, frags) == sequence_deps(seqs, frags.take(k)),
    decreases frags.len() - k,
{
    if k < frags.len() {
        assert(frags.take(k + 1).drop_last() =~= frags.take(k));
        lemma_sequence_deps_error(seqs, frags, k + 1);
    } else {
        assert(frags.take(k) =~= frags);
    }
}

/// Why the sequences of a tseq text cannot be built: one refers to a sequence that the
/// text does not define, or some depend on one another (their positions).
#[derive(Debug, PartialEq)]
pub enum SequencesError {
    Unknown(String),
    MutuallyDependent(Vec<usize>),
}

/// Checks that every sequence refers only to defined sequences and that no sequences
/// depend on one another: the first unknown reference, in sequence order then fragment
/// order, is the error; else the sequences that no order can schedule are.
pub fn check_sequences(sequences: &Vec<PSequence>) -> (r: Result<(), SequencesError>)
    ensures
        match sequences_deps(sequences.deep_view(), sequences@.len() as int) {
            Err(id) => r matches Err(SequencesError::Unknown(e)) && e@ == id,
            Ok(dd) => {
                &&& r is Ok <==> exists|o: Seq<usize>| is_schedule(dd, o)
                &&& r matches Err(SequencesError::MutuallyDependent(rest)) ==> rest@ == unscheduled(
                    dd.len(),
                    schedule(dd),
                ) && rest@.len() > 0
                &&& !(r matches Err(SequencesError::Unknown(_)))
            },
        },
{
    let ghost seqs = sequences.deep_view();
    let mut all: Vec<Vec<usize>> = Vec::new();
    let mut k: usize = 0;
    while k < sequences.len()
        invariant
            k <= sequences@.len(),
            seqs == sequences.deep_view(),
            sequences_deps(seqs, k as int) matches Ok(dd) && all.deep_view() == dd,
        decreases sequences@.len() - k,
    {
        assert(seqs[k as int] == sequences@[k as int].deep_view());
        match sequence_dependencies(sequences, &sequences[k].fragments) {
            Ok(d) => {
                let ghost before = all.deep_view();
                assert(d.deep_view() =~= d@);
                all.push(d);
                assert(all.deep_view() =~= before.push(all@.last().deep_view()));
            },
            Err(id) => {
                proof {
                    lemma_sequences_deps_error(seqs, k as int + 1, sequences@.len() as int);
                }
                return Err(SequencesError::Unknown(id));
            },
        }
        k += 1;
    }
    match elements_scheduling(&all) {
        Ok(_) => Ok(()),
        Err(SchedulingError::MutuallyDependent(rest)) => Err(SequencesError::MutuallyDependent(rest)),
    }
}

proof fn lemma_sequences_deps_error(seqs: Seq<SSequence>, k: int, n: int)
    requires
        0 < k <= n,
        sequences_deps(seqs, k) is Err,
    ensures
        sequences_deps(seqs, n) == sequences_deps(seqs, k),
    decreases n - k,
{
    if k < n {
        lemma_sequences_deps_error(seqs, k + 1, n);
    }
}

impl SequencesError {
    /// The text of the error, given the sequences that it is about.
    pub fn message(&self, sequences: &Vec<PSequence>) -> (r: String)
        requires
            self matches SequencesError::MutuallyDependent(rest) ==> forall|j: int|
                0 <= j < rest@.len() ==> #[trigger] rest@[j] < sequences@.len(),
        ensures
            r@ == match self {
                SequencesError::Unknown(id) => "Sequence "@ + id@ + " unknown!"@,
                SequencesError::MutuallyDependent(rest) => mutually_dependent_message(
                    "sequence"@,
                    rest@.map_values(|i: usize| sequences@[i as int].id@),
                ),
            },
    {
        match self {
            SequencesError::Unknown(id) => {
                let mut r = "Sequence ".to_owned();
                r.append(id.as_str());
                r.append(" unknown!");
                r
            },
            SequencesError::MutuallyDependent(rest) => {
                let mut ids: Vec<String> = Vec::new();
                let mut j: usize = 0;
                while j < rest.len()
                    invariant
                        j <= rest@.len(),
                        forall|k: int| 0 <= k < rest@.len() ==> #[trigger] rest@[k] < sequences@.len(),
                        ids.deep_view() == rest@.take(j as int).map_values(
                            |i: usize| sequences@[i as int].id@,
                        ),
                    decreases rest@.len() - j,
                {
                    let ghost before = ids.deep_view();
                    let id = sequences[rest[j]].id.clone();
                    ids.push(id);
                    assert(ids.deep_view() =~= before.push(sequences@[rest@[j as int] as int].id@));
                    assert(rest@.take(j + 1).map_values(|i: usize| sequences@[i as int].id@)
                        =~= rest@.take(j as int).map_values(|i: usize| sequences@[i as int].id@).push(
                        sequences@[rest@[j as int] as int].id@,
                    ));
                    j += 1;
                }
                assert(rest@.take(j as int) =~= rest@);
                scheduling_error_message("sequence", &ids)
            },
        }
    }
}

/// The sequences that the statements define (`seq` statements), in order.
pub open spec fn defined_sequences_of(expressions: Seq<SExpression>) -> Seq<SSequence>
    decreases expressions.len(),
{
    if expressions.len() == 0 {
        Seq::empty()
    } else {
        let init = defined_sequences_of(expressions.drop_last());
        match expressions.last() {
            SExpression::Sequence(q) => init.push(q),
            _ => init,
        }
    }
}

/// The sequences that the statements define (see [`defined_sequences_of`]).
pub fn defined_sequences(expressions: Vec<Expression>) -> (r: Vec<PSequence>)
    ensures
        r.deep_view() == defined_sequences_of(expressions.deep_view()),
{
    let ghost es = expressions.deep_view();
    let mut rest = expressions;
    let mut r: Vec<PSequence> = Vec::new();
    let ghost mut done: Seq<SExpression> = Seq::empty();
    assert(es =~= done + rest.deep_view());
    while rest.len() > 0
        invariant
            es == done + rest.deep_view(),
            r.deep_view() == defined_sequences_of(done),
        decreases rest.len(),
    {
        let ghost before_rest = rest.deep_view();
        let e = rest.remove(0);
        let ghost ev = e.deep_view();
        let ghost before_r = r.deep_view();
        assert(before_rest[0] == ev);
        assert(rest.deep_view() =~= before_rest.drop_first());
        match e {
            Expression::Sequence(q) => {
                r.push(q);
                assert(r.deep_view() =~= before_r.push(ev->Sequence_0));
            },
            _ => {},
        }
        proof {
            let nd = done.push(ev);
            assert(nd.drop_last() =~= done);
            assert(es =~= nd + rest.deep_view());
            done = nd;
        }
    }
    assert(es =~= done);
    r
}

/// The first of `sequences` named `id`; the error message names it when none is.
pub fn fetch_sequence<'s>(sequences: &'s Vec<PSequence>, id: &str) -> (r: Result<&'s PSequence, String>)
    ensures
        sequence_position(sequences.deep_view(), id@, 0) < sequences@.len() ==> (r matches Ok(q)
            && *q == sequences@[sequence_position(sequences.deep_view(), id@, 0)]),
        sequence_position(sequences.deep_view(), id@, 0) >= sequences@.len() ==> (r matches Err(e)
            && e@ == "Sequence "@ + id@ + " not found!"@),
{
    let k = sequence_position_of(sequences, id);
    if k < sequences.len() {
        Ok(&sequences[k])
    } else {
        let mut e = "Sequence ".to_owned();
        e.append(id);
        e.append(" not found!");
        Err(e)
    }
}

/// Only `seq` statements define sequences: any other statement added to a text leaves its
/// defined sequences as they are, a `seq` statement adds its sequence at the end, and
/// every defined sequence is the sequence of a `seq` statement of the text.
pub proof fn lemma_defined_sequences(expressions: Seq<SExpression>, e: SExpression)
    ensures
        !(e is Sequence) ==> defined_sequences_of(expressions.push(e)) == defined_sequences_of(
            expressions,
        ),
        e matches SExpression::Sequence(q) ==> defined_sequences_of(expressions.push(e))
            == defined_sequences_of(expressions).push(q),
        forall|i: int|
            0 <= i < defined_sequences_of(expressions).len() ==> exists|j: int|
                0 <= j < expressions.len() && expressions[j] == SExpression::Sequence(
                    #[trigger] defined_sequences_of(expressions)[i],
                ),
    decreases expressions.len(),
{
    assert(expressions.push(e).drop_last() =~= expressions);
    if expressions.len() > 0 {
        let init = expressions.drop_last();
        lemma_defined_sequences(init, expressions.last());
        let d = defined_sequences_of(expressions);
        assert forall|i: int| 0 <= i < d.len() implies exists|j: int|
            0 <= j < expressions.len() && expressions[j] == SExpression::Sequence(
                #[trigger] d[i],
            ) by {
            if i < defined_sequences_of(init).len() {
                let j = choose|j: int|
                    0 <= j < init.len() && init[j] == SExpression::Sequence(
                        defined_sequences_of(init)[i],
                    );
                assert(expressions[j] == init[j]);
            } else {
                assert(expressions[expressions.len() - 1] == SExpression::Sequence(d[i]));
            }
        }
    }
}

} // verus!
