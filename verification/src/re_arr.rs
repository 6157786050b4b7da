//! The fixed-capacity region: an array of `N` slots, each either occupied or
//! empty, where the occupied slots always form a contiguous prefix.

use vstd::prelude::*;

verus! {

/// The occupied slots of `s` form a contiguous prefix: no `Some` ever
/// follows a `None`.
pub open spec fn contiguous_prefix<T>(s: Seq<Option<T>>) -> bool {
    forall|i: int, j: int| 0 <= i < j < s.len() && s[j] is Some ==> s[i] is Some
}

/// Relies on `Vec::from` for arrays: the vector holds exactly the array's
/// elements, in order.
#[verifier::external_body]
fn array_to_vec<T, const N: usize>(arr: [T; N]) -> (r: Vec<T>)
    ensures
        r@ == arr@,
{
    Vec::from(arr)
}

/// A fixed-capacity container holding at most `N` elements.
///
/// The `N` slots are filled front to back: the first `filled` slots hold the
/// elements in insertion order and every later slot is empty. The slot block
/// itself is never resized; only `filled` moves.
pub struct ReArr<T, const N: usize> {
    slots: Vec<Option<T>>,
    filled: usize,
}

impl<T, const N: usize> View for ReArr<T, N> {
    type V = Seq<T>;

    /// The elements currently stored, in order.
    closed spec fn view(&self) -> Seq<T> {
        Seq::new(self.filled as nat, |i: int| self.slots@[i].unwrap())
    }
}

impl<T, const N: usize> ReArr<T, N> {
    /// The slot block has exactly `N` slots and the occupied ones form a
    /// contiguous prefix of length `filled`.
    pub closed spec fn wf(&self) -> bool {
        &&& self.slots@.len() == N
        &&& self.filled <= N
        &&& forall|i: int| 0 <= i < self.filled ==> self.slots@[i] is Some
        &&& forall|i: int| self.filled <= i < N ==> self.slots@[i] is None
    }

    /// A well-formed region never holds more than `N` elements.
    pub proof fn lemma_len_bounded(&self)
        requires
            self.wf(),
        ensures
            self@.len() <= N,
    {
    }

    /// Create an empty region: no slot is occupied.
    pub fn new() -> (r: Self)
        ensures
            r.wf(),
            r@ == Seq::<T>::empty(),
    {
        let mut slots: Vec<Option<T>> = Vec::new();
        let mut i: usize = 0;
        while i < N
            invariant
                i <= N,
                slots@.len() == i,
                forall|j: int| 0 <= j < i ==> slots@[j] is None,
            decreases N - i,
        {
            slots.push(None);
            i = i + 1;
        }
        let r = ReArr { slots, filled: 0 };
        proof {
            assert(r@ =~= Seq::<T>::empty());
        }
        r
    }

    /// How many elements are currently stored.
    pub fn len(&self) -> (r: usize)
        requires
            self.wf(),
        ensures
            r == self@.len(),
            r <= N,
    {
        self.filled
    }

    /// How many elements can be stored.
    pub fn capacity(&self) -> (r: usize)
        ensures
            r == N,
    {
        N
    }

    /// Whether no element is stored.
    pub fn is_empty(&self) -> (r: bool)
        requires
            self.wf(),
        ensures
            r == (self@.len() == 0),
    {
        self.filled == 0
    }

    /// Append an element. The region must not be full.
    pub fn push(&mut self, val: T)
        requires
            old(self).wf(),
            old(self)@.len() < N,
        ensures
            final(self).wf(),
            final(self)@ == old(self)@.push(val),
    {
        let slot = &mut self.slots[self.filled];
        *slot = Some(val);
        self.filled = self.filled + 1;
        proof {
            assert(final(self)@ =~= old(self)@.push(val));
        }
    }

    /// Read the element at `idx`, or `None` if `idx` is not in bounds.
    pub fn get(&self, idx: usize) -> (r: Option<&T>)
        requires
            self.wf(),
        ensures
            idx < self@.len() ==> r is Some && r.unwrap() == self@[idx as int],
            idx >= self@.len() ==> r is None,
    {
        if idx < self.filled {
            self.slots[idx].as_ref()
        } else {
            None
        }
    }

    /// Borrow the element at `idx` mutably, or `None` if `idx` is not in
    /// bounds. Writing through the borrow replaces that element in place.
    pub fn get_mut(&mut self, idx: usize) -> (r: Option<&mut T>)
        requires
            old(self).wf(),
        ensures
            final(self).wf(),
            idx < old(self)@.len() ==> r is Some && *r.unwrap() == old(self)@[idx as int]
                && final(self)@ =~= old(self)@.update(idx as int, *final(r.unwrap())),
            idx >= old(self)@.len() ==> r is None && final(self)@ == old(self)@,
    {
        if idx < self.filled {
            let slot = &mut self.slots[idx];
            slot.as_mut()
        } else {
            None
        }
    }

    /// Read the first element, or `None` if the region is empty.
    pub fn first(&self) -> (r: Option<&T>)
        requires
            self.wf(),
        ensures
            self@.len() == 0 ==> r is None,
            self@.len() > 0 ==> r is Some && r.unwrap() == self@[0],
    {
        if self.filled == 0 {
            None
        } else {
            self.slots[0].as_ref()
        }
    }

    /// Borrow the first element mutably, or `None` if the region is empty.
    pub fn first_mut(&mut self) -> (r: Option<&mut T>)
        requires
            old(self).wf(),
        ensures
            final(self).wf(),
            old(self)@.len() == 0 ==> r is None && final(self)@ == old(self)@,
            old(self)@.len() > 0 ==> r is Some && *r.unwrap() == old(self)@[0] && final(self)@
                =~= old(self)@.update(0, *final(r.unwrap())),
    {
        if self.filled == 0 {
            None
        } else {
            let slot = &mut self.slots[0];
            slot.as_mut()
        }
    }

    /// Read the last element, or `None` if the region is empty.
    pub fn last(&self) -> (r: Option<&T>)
        requires
            self.wf(),
        ensures
            self@.len() == 0 ==> r is None,
            self@.len() > 0 ==> r is Some && r.unwrap() == self@.last(),
    {
        if self.filled == 0 {
            None
        } else {
            self.slots[self.filled - 1].as_ref()
        }
    }

    /// Borrow the last element mutably, or `None` if the region is empty.
    pub fn last_mut(&mut self) -> (r: Option<&mut T>)
        requires
            old(self).wf(),
        ensures
            final(self).wf(),
            old(self)@.len() == 0 ==> r is None && final(self)@ == old(self)@,
            old(self)@.len() > 0 ==> r is Some && *r.unwrap() == old(self)@.last()
                && final(self)@ =~= old(self)@.update(old(self)@.len() - 1, *final(r.unwrap())),
    {
        if self.filled == 0 {
            None
        } else {
            let slot = &mut self.slots[self.filled - 1];
            slot.as_mut()
        }
    }

    /// Create a region from an array of slots that are all occupied.
    pub fn from_arr(arr: [Option<T>; N]) -> (r: Self)
        requires
            forall|i: int| 0 <= i < N ==> arr@[i] is Some,
        ensures
            r.wf(),
            r@.len() == N,
            forall|i: int| 0 <= i < N ==> r@[i] == arr@[i].unwrap(),
    {
        ReArr { slots: array_to_vec(arr), filled: N }
    }

    /// Append every element of `other`, in order. The elements must all fit.
    pub fn extend(&mut self, other: Vec<T>)
        requires
            old(self).wf(),
            old(self)@.len() + other@.len() <= N,
        ensures
            final(self).wf(),
            final(self)@ == old(self)@ + other@,
    {
        let ghost all = other@;
        for x in it: other.into_iter()
            invariant
                self.wf(),
                it.seq() == all,
                0 <= it.index() <= all.len(),
                self@ == old(self)@ + all.take(it.index() as int),
                old(self)@.len() + all.len() <= N,
        {
            let ghost i = it.index();
            self.push(x);
            proof {
                assert(self@ =~= old(self)@ + all.take(i + 1));
            }
        }
        proof {
            assert(final(self)@ =~= old(self)@ + all);
        }
    }

    /// Remove and return the element at `index`, shifting every later
    /// element one place to the left.
    pub fn remove(&mut self, index: usize) -> (r: T)
        requires
            old(self).wf(),
            index < old(self)@.len(),
        ensures
            final(self).wf(),
            r == old(self)@[index as int],
            final(self)@ == old(self)@.remove(index as int),
    {
        let v = self.slots.remove(index);
        self.slots.push(None);
        self.filled = self.filled - 1;
        proof {
            assert(final(self)@ =~= old(self)@.remove(index as int));
        }
        v.unwrap()
    }

    /// Remove and return the element at `index`, moving the last element
    /// into its place. Does not preserve order.
    pub fn swap_remove(&mut self, index: usize) -> (r: T)
        requires
            old(self).wf(),
            index < old(self)@.len(),
        ensures
            final(self).wf(),
            r == old(self)@[index as int],
            final(self)@ == old(self)@.update(index as int, old(self)@.last()).drop_last(),
    {
        self.filled = self.filled - 1;
        let slot = &mut self.slots[self.filled];
        let last_val = slot.take();
        if index < self.filled {
            let target = &mut self.slots[index];
            let old_val = target.take();
            *target = last_val;
            proof {
                assert(final(self)@ =~= old(self)@.update(
                    index as int,
                    old(self)@.last(),
                ).drop_last());
            }
            old_val.unwrap()
        } else {
            proof {
                assert(final(self)@ =~= old(self)@.update(
                    index as int,
                    old(self)@.last(),
                ).drop_last());
            }
            last_val.unwrap()
        }
    }

    /// Replace the element at `index` with `val`, returning the element
    /// previously stored there.
    pub(crate) fn replace(&mut self, index: usize, val: T) -> (r: T)
        requires
            old(self).wf(),
            index < old(self)@.len(),
        ensures
            final(self).wf(),
            r == old(self)@[index as int],
            final(self)@ == old(self)@.update(index as int, val),
    {
        let slot = &mut self.slots[index];
        let old_val = slot.take();
        *slot = Some(val);
        proof {
            assert(final(self)@ =~= old(self)@.update(index as int, val));
        }
        old_val.unwrap()
    }

    /// Reduce the number of elements to `new_len`, dropping the tail. Has no
    /// effect when `new_len` is not below the current length.
    pub fn truncate(&mut self, new_len: usize)
        requires
            old(self).wf(),
        ensures
            final(self).wf(),
            new_len >= old(self)@.len() ==> *final(self) == *old(self),
            new_len < old(self)@.len() ==> final(self)@ == old(self)@.take(new_len as int),
    {
        if new_len >= self.filled {
            return;
        }
        let mut i: usize = new_len;
        while i < self.filled
            invariant
                new_len <= i <= self.filled,
                old(self).wf(),
                self.filled == old(self).filled,
                self.slots@.len() == N,
                forall|j: int| 0 <= j < new_len ==> self.slots@[j] == old(self).slots@[j],
                forall|j: int| new_len <= j < i ==> self.slots@[j] is None,
                forall|j: int| i <= j < N ==> self.slots@[j] == old(self).slots@[j],
            decreases self.filled - i,
        {
            let slot = &mut self.slots[i];
            *slot = None;
            i = i + 1;
        }
        self.filled = new_len;
        proof {
            assert(final(self)@ =~= old(self)@.take(new_len as int));
        }
    }

    /// Remove all elements.
    pub fn clear(&mut self)
        requires
            old(self).wf(),
        ensures
            final(self).wf(),
            final(self)@ == Seq::<T>::empty(),
    {
        self.truncate(0);
        proof {
            assert(final(self)@ =~= Seq::<T>::empty());
        }
    }

    /// Grow to `new_len` elements by appending results of `producer`, or
    /// shrink to `new_len` by truncating.
    pub fn resize_with<F: Fn() -> T>(&mut self, new_len: usize, producer: F)
        requires
            old(self).wf(),
            new_len <= N,
            producer.requires(()),
        ensures
            final(self).wf(),
            final(self)@.len() == new_len,
            new_len <= old(self)@.len() ==> final(self)@ == old(self)@.take(new_len as int),
            new_len > old(self)@.len() ==> (forall|i: int|
                0 <= i < old(self)@.len() ==> final(self)@[i] == old(self)@[i]) && (forall|i: int|
                old(self)@.len() <= i < new_len ==> producer.ensures((), final(self)@[i])),
    {
        if new_len <= self.filled {
            self.truncate(new_len);
        } else {
            while self.filled < new_len
                invariant
                    self.wf(),
                    new_len <= N,
                    producer.requires(()),
                    self@.len() == self.filled,
                    old(self)@.len() <= self@.len() <= new_len,
                    forall|i: int| 0 <= i < old(self)@.len() ==> self@[i] == old(self)@[i],
                    forall|i: int|
                        old(self)@.len() <= i < self@.len() ==> producer.ensures((), self@[i]),
                decreases new_len - self.filled,
            {
                self.push(producer());
            }
        }
    }

    /// The elements as a vector of references, in order.
    pub fn iter(&self) -> (r: Vec<&T>)
        requires
            self.wf(),
        ensures
            r@.len() == self@.len(),
            forall|i: int| 0 <= i < self@.len() ==> r@[i] == self@[i],
    {
        let mut r: Vec<&T> = Vec::new();
        let mut i: usize = 0;
        while i < self.filled
            invariant
                self.wf(),
                i <= self@.len(),
                r@.len() == i,
                forall|j: int| 0 <= j < i ==> r@[j] == self@[j],
            decreases self.filled - i,
        {
            r.push(self.slots[i].as_ref().unwrap());
            i = i + 1;
        }
        r
    }

    /// The elements as a vector of references, in order.
    pub fn ref_vec(&self) -> (r: Vec<&T>)
        requires
            self.wf(),
        ensures
            r@.len() == self@.len(),
            forall|i: int| 0 <= i < self@.len() ==> r@[i] == self@[i],
    {
        self.iter()
    }

    /// Turn the region into a vector holding the same elements, in order.
    pub fn into_vec(self) -> (r: Vec<T>)
        requires
            self.wf(),
        ensures
            r@ == self@,
    {
        let ghost orig = self@;
        let ghost orig_slots = self.slots@;
        let mut this = self;
        let mut r: Vec<T> = Vec::new();
        let mut i: usize = 0;
        while i < this.filled
            invariant
                i <= this.filled,
                this.filled as nat == orig.len(),
                this.slots@.len() == N,
                orig_slots.len() == N,
                this.filled <= N,
                forall|j: int| i <= j < N ==> this.slots@[j] == orig_slots[j],
                forall|j: int| 0 <= j < this.filled ==> orig_slots[j] is Some,
                forall|j: int| 0 <= j < this.filled ==> orig[j] == orig_slots[j].unwrap(),
                r@.len() == i,
                forall|j: int| 0 <= j < i ==> r@[j] == orig[j],
            decreases this.filled - i,
        {
            proof {
                assert(this.slots@[i as int] == orig_slots[i as int]);
                assert(orig_slots[i as int] is Some);
            }
            let slot = &mut this.slots[i];
            let v = slot.take();
            r.push(v.unwrap());
            i = i + 1;
        }
        proof {
            assert(r@ =~= orig);
        }
        r
    }

    /// Remove and return the last element, or `None` if the region is empty.
    pub fn pop(&mut self) -> (r: Option<T>)
        requires
            old(self).wf(),
        ensures
            final(self).wf(),
            old(self)@.len() == 0 ==> r is None && final(self)@ == old(self)@,
            old(self)@.len() > 0 ==> r == Some(old(self)@.last()) && final(self)@ == old(
                self,
            )@.drop_last(),
    {
        if self.filled == 0 {
            None
        } else {
            self.filled = self.filled - 1;
            let slot = &mut self.slots[self.filled];
            let r = slot.take();
            proof {
                assert(final(self)@ =~= old(self)@.drop_last());
            }
            r
        }
    }
}

impl<T, const N: usize> Default for ReArr<T, N> {
    /// The default region is empty.
    fn default() -> (r: Self)
        ensures
            r.wf(),
            r@ == Seq::<T>::empty(),
    {
        Self::new()
    }
}

impl<T: Clone, const N: usize> ReArr<T, N> {
    /// The elements as a vector of clones, in order.
    pub fn to_vec(&self) -> (r: Vec<T>)
        requires
            self.wf(),
        ensures
            r@.len() == self@.len(),
            forall|i: int| 0 <= i < self@.len() ==> cloned(self@[i], r@[i]),
    {
        let mut r: Vec<T> = Vec::new();
        let mut i: usize = 0;
        while i < self.filled
            invariant
                self.wf(),
                i <= self@.len(),
                r@.len() == i,
                forall|j: int| 0 <= j < i ==> cloned(self@[j], r@[j]),
            decreases self.filled - i,
        {
            r.push(self.slots[i].as_ref().unwrap().clone());
            i = i + 1;
        }
        r
    }

    /// Grow to `new_len` elements by appending clones of `val`, or shrink to
    /// `new_len` by truncating.
    pub fn resize(&mut self, new_len: usize, val: T)
        requires
            old(self).wf(),
            new_len <= N,
        ensures
            final(self).wf(),
            final(self)@.len() == new_len,
            new_len <= old(self)@.len() ==> final(self)@ == old(self)@.take(new_len as int),
            new_len > old(self)@.len() ==> (forall|i: int|
                0 <= i < old(self)@.len() ==> final(self)@[i] == old(self)@[i]) && (forall|i: int|
                old(self)@.len() <= i < new_len ==> cloned(val, final(self)@[i])),
    {
        if new_len <= self.filled {
            self.truncate(new_len);
        } else {
            while self.filled < new_len
                invariant
                    self.wf(),
                    new_len <= N,
                    self@.len() == self.filled,
                    old(self)@.len() <= self@.len() <= new_len,
                    forall|i: int| 0 <= i < old(self)@.len() ==> self@[i] == old(self)@[i],
                    forall|i: int| old(self)@.len() <= i < self@.len() ==> cloned(val, self@[i]),
                decreases new_len - self.filled,
            {
                self.push(val.clone());
            }
        }
    }
}

/// The string obtained by writing each element of `elems` in order with
/// `sep` between consecutive elements.
pub open spec fn joined(elems: Seq<Seq<char>>, sep: Seq<char>) -> Seq<char>
    decreases elems.len(),
{
    if elems.len() == 0 {
        Seq::<char>::empty()
    } else if elems.len() == 1 {
        elems[0]
    } else {
        joined(elems.drop_last(), sep) + sep + elems.last()
    }
}

/// Extending a joined string by one more element appends the separator (after
/// the first element) and then that element.
pub(crate) proof fn lemma_joined_step(elems: Seq<Seq<char>>, sep: Seq<char>, k: int)
    requires
        0 <= k < elems.len(),
    ensures
        k == 0 ==> joined(elems.take(1), sep) == elems[0],
        k > 0 ==> joined(elems.take(k + 1), sep) == joined(elems.take(k), sep) + sep + elems[k],
{
    if k == 0 {
        assert(elems.take(1).len() == 1);
        assert(elems.take(1)[0] == elems[0]);
    } else {
        assert(elems.take(k + 1).drop_last() =~= elems.take(k));
        assert(elems.take(k + 1).last() == elems[k]);
    }
}

impl<const N: usize> ReArr<String, N> {
    /// Join the elements into one string with `sep` between consecutive
    /// elements.
    pub fn join(&self, sep: &str) -> (r: String)
        requires
            self.wf(),
        ensures
            r@ == joined(self@.map_values(|s: String| s@), sep@),
    {
        let ghost elems = self@.map_values(|s: String| s@);
        let mut r = String::new();
        let mut i: usize = 0;
        while i < self.filled
            invariant
                self.wf(),
                i <= self@.len(),
                elems == self@.map_values(|s: String| s@),
                r@ == joined(elems.take(i as int), sep@),
            decreases self.filled - i,
        {
            if i != 0 {
                r.append(sep);
            }
            let elem = self.slots[i].as_ref().unwrap();
            r.append(elem.as_str());
            proof {
                lemma_joined_step(elems, sep@, i as int);
            }
            i = i + 1;
        }
        proof {
            assert(elems.take(self@.len() as int) =~= elems);
        }
        r
    }
}

impl<T: Copy, const N: usize> ReArr<T, N> {
    /// Create a region from an array whose occupied slots form a contiguous
    /// prefix; that prefix becomes the contents, in order.
    pub fn from_arr_and_len(arr: &[Option<T>; N]) -> (r: Self)
        requires
            contiguous_prefix(arr@),
        ensures
            r.wf(),
            r@.len() <= N,
            forall|i: int| 0 <= i < r@.len() ==> (#[trigger] arr@[i]) is Some,
            forall|i: int| 0 <= i < r@.len() ==> r@[i] == (#[trigger] arr@[i]).unwrap(),
            r@.len() < N ==> arr@[r@.len() as int] is None,
    {
        let mut filled: usize = 0;
        while filled < N && arr[filled].is_some()
            invariant
                filled <= N,
                arr@.len() == N,
                forall|j: int| 0 <= j < filled ==> arr@[j] is Some,
            decreases N - filled,
        {
            filled = filled + 1;
        }
        let r = ReArr { slots: array_to_vec(*arr), filled };
        proof {
            assert forall|j: int| filled <= j < N implies r.slots@[j] is None by {
                if r.slots@[j] is Some {
                    assert(arr@[filled as int] is Some);
                }
            }
        }
        r
    }
}

} // verus!
