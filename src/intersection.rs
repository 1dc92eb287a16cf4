use vstd::prelude::*;

verus! {

/// Whether the entries of `s` are in ascending order of their keys.
pub open spec fn sorted_by_key<T>(s: Seq<(i64, T)>) -> bool {
    forall|i: int, j: int| 0 <= i <= j < s.len() ==> s[i].0 <= s[j].0
}

/// Whether entry `i` of `s` is a hit: its key is positive, and no entry with a
/// positive key has a smaller one.
pub open spec fn is_least_positive<T>(s: Seq<(i64, T)>, i: int) -> bool {
    &&& 0 <= i < s.len()
    &&& s[i].0 > 0
    &&& forall|j: int| 0 <= j < s.len() && s[j].0 > 0 ==> s[i].0 <= s[j].0
}

/// Whether any entry of `s` has a positive key.
pub open spec fn has_positive<T>(s: Seq<(i64, T)>) -> bool {
    exists|i: int| 0 <= i < s.len() && s[i].0 > 0
}

/// The intersections of a ray with one or more shapes.
///
/// Each entry pairs an order key of the ray parameter `t` with the caller's record of
/// the intersection. The key is an integer whose order is the order of `t`, and
/// whose sign is the sign of `t` (the IEEE total order, read from the bits of `t`):
/// so "ascending by key" is "ascending by `t`", and "key > 0" is "t > 0".
/// The entries are kept in ascending order of their keys.
pub struct Intersections<T> {
    pub intersections: Vec<(i64, T)>,
}

impl<T> Intersections<T> {
    /// The entries, in order.
    pub open spec fn view(&self) -> Seq<(i64, T)> {
        self.intersections@
    }

    /// The entries are in ascending order of their keys.
    pub open spec fn wf(&self) -> bool {
        sorted_by_key(self@)
    }

    /// Gathers the given intersections, in ascending order of their keys.
    pub fn new(xs: Vec<(i64, T)>) -> (r: Self)
        ensures
            r.wf(),
            r@.to_multiset() =~= xs@.to_multiset(),
    {
        let mut xs = xs;
        let mut out: Vec<(i64, T)> = Vec::new();
        let ghost taken: Seq<(i64, T)> = Seq::empty();
        let ghost all = xs@;
        // Take the entries from the back; each one goes in front of every entry
        // already placed whose key is not smaller than its own.
        while xs.len() > 0
            invariant
                sorted_by_key(out@),
                all == xs@ + taken,
                out@.to_multiset() =~= taken.to_multiset(),
            decreases xs.len(),
        {
            let ghost before = xs@;
            let x = xs.pop().unwrap();
            proof {
                assert(before == xs@.push(x));
                assert(all == xs@ + (seq![x] + taken)) by {
                    assert(before + taken =~= xs@ + (seq![x] + taken));
                }
            }
            let mut j: usize = 0;
            while j < out.len() && out[j].0 < x.0
                invariant
                    j <= out.len(),
                    forall|k: int| 0 <= k < j ==> out@[k].0 < x.0,
                decreases out.len() - j,
            {
                j = j + 1;
            }
            let ghost old_out = out@;
            out.insert(j, x);
            proof {
                lemma_insert_to_multiset(old_out, j as int, x);
                lemma_cons_to_multiset(taken, x);
                taken = seq![x] + taken;
            }
        }
        proof {
            assert(all =~= taken);
        }
        Intersections { intersections: out }
    }

    /// The hit: the entry with the smallest positive key, or `None` when no key is
    /// positive. Among equal keys it is the earliest entry.
    pub fn hit(&self) -> (r: Option<&T>)
        requires
            self.wf(),
        ensures
            r is None <==> !has_positive(self@),
            r matches Some(x) ==> exists|i: int|
                #![trigger self@[i]]
                is_least_positive(self@, i) && *x == self@[i].1 && forall|k: int|
                    0 <= k < i ==> self@[k].0 <= 0,
    {
        let mut i: usize = 0;
        while i < self.intersections.len()
            invariant
                self.wf(),
                i <= self@.len(),
                forall|k: int| 0 <= k < i ==> self@[k].0 <= 0,
            decreases self@.len() - i,
        {
            if self.intersections[i].0 > 0 {
                assert(is_least_positive(self@, i as int));
                return Some(&self.intersections[i].1);
            }
            i = i + 1;
        }
        None
    }
}

/// The hit rule over a gathered set: when `gathered` holds the entries of `given`
/// in ascending order of their keys (what `Intersections::new` returns), it has a
/// positive key exactly when `given` does, and its least positive entry (what `hit`
/// returns) is an entry of `given` whose key is the smallest positive key in `given`.
pub proof fn lemma_hit_of_gathered<T>(given: Seq<(i64, T)>, gathered: Seq<(i64, T)>, i: int)
    requires
        sorted_by_key(gathered),
        gathered.to_multiset() =~= given.to_multiset(),
    ensures
        has_positive(gathered) <==> has_positive(given),
        is_least_positive(gathered, i) ==> given.contains(gathered[i]) && forall|j: int|
            0 <= j < given.len() && given[j].0 > 0 ==> gathered[i].0 <= given[j].0,
{
    broadcast use vstd::seq_lib::group_to_multiset_ensures;

    assert forall|e: (i64, T)| gathered.contains(e) <==> given.contains(e) by {
        assert(gathered.contains(e) <==> gathered.to_multiset().count(e) > 0);
        assert(given.contains(e) <==> given.to_multiset().count(e) > 0);
    }
    if has_positive(given) {
        let j = choose|j: int| 0 <= j < given.len() && given[j].0 > 0;
        assert(given.contains(given[j]));
    }
    if has_positive(gathered) {
        let j = choose|j: int| 0 <= j < gathered.len() && gathered[j].0 > 0;
        assert(gathered.contains(gathered[j]));
    }
    if is_least_positive(gathered, i) {
        assert(gathered.contains(gathered[i]));
        assert forall|j: int| 0 <= j < given.len() && given[j].0 > 0 implies gathered[i].0
            <= given[j].0 by {
            assert(given.contains(given[j]));
        }
    }
}

/// Inserting `x` into a sequence adds one `x` to its multiset.
proof fn lemma_insert_to_multiset<A>(s: Seq<A>, i: int, x: A)
    requires
        0 <= i <= s.len(),
    ensures
        s.insert(i, x).to_multiset() =~= s.to_multiset().insert(x),
{
    broadcast use vstd::seq_lib::group_to_multiset_ensures;

    let t = s.insert(i, x);
    assert(t.remove(i) =~= s);
    assert(t[i] == x);
    assert(t.to_multiset().count(x) > 0) by {
        assert(t.contains(x));
    }
    assert(t.to_multiset().remove(x).insert(x) =~= t.to_multiset());
}

/// Putting `x` in front of a sequence adds one `x` to its multiset.
proof fn lemma_cons_to_multiset<A>(s: Seq<A>, x: A)
    ensures
        (seq![x] + s).to_multiset() =~= s.to_multiset().insert(x),
{
    assert(seq![x] + s =~= s.insert(0, x));
    lemma_insert_to_multiset(s, 0, x);
}

} // verus!
