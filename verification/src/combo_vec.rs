//! The hybrid container: a fixed region of `N` slots plus a growable
//! overflow buffer, presented as one contiguous sequence.

use vstd::prelude::*;

use crate::re_arr::ReArr;
use crate::re_arr::contiguous_prefix;
use crate::re_arr::joined;
use crate::re_arr::lemma_joined_step;

verus! {

/// Relies on `Vec::capacity`: a vector can always hold at least as many
/// elements as it currently stores without reallocating.
#[verifier::external_body]
fn vec_capacity<T>(v: &Vec<T>) -> (r: usize)
    ensures
        r >= v@.len(),
{
    v.capacity()
}

/// A container that stores its first `N` elements in a fixed slot block and
/// spills any further elements into a growable overflow buffer.
///
/// Invariant: the overflow buffer is non-empty only while the fixed region is
/// full, so logical index `i` lives in the fixed region exactly when `i < N`.
pub struct ComboVec<T, const N: usize> {
    arr: ReArr<T, N>,
    vec: Vec<T>,
}

impl<T, const N: usize> View for ComboVec<T, N> {
    type V = Seq<T>;

    /// All elements in logical order: the fixed region first, then the
    /// overflow buffer.
    closed spec fn view(&self) -> Seq<T> {
        self.arr@ + self.vec@
    }
}

impl<T, const N: usize> ComboVec<T, N> {
    /// The elements held by the fixed region, in order.
    pub closed spec fn stack_view(&self) -> Seq<T> {
        self.arr@
    }

    /// The elements held by the overflow buffer, in order.
    pub closed spec fn heap_view(&self) -> Seq<T> {
        self.vec@
    }

    /// Both regions are well formed, the overflow buffer is used only once
    /// the fixed region is full, and the total length fits in `usize`.
    pub closed spec fn wf(&self) -> bool {
        &&& self.arr.wf()
        &&& self.vec@.len() > 0 ==> self.arr@.len() == N
        &&& N + self.vec@.len() <= usize::MAX
    }

    /// The no-spill-until-full invariant determines how a well-formed
    /// container splits its elements between the two regions: the fixed
    /// region holds the first `N` elements (or all of them, when fewer), and
    /// the overflow buffer holds exactly the rest.
    pub proof fn lemma_region_split(&self)
        requires
            self.wf(),
        ensures
            self@.len() == self.stack_view().len() + self.heap_view().len(),
            self.heap_view().len() > 0 ==> self.stack_view().len() == N,
            self@.len() <= N ==> self.stack_view() == self@ && self.heap_view()
                == Seq::<T>::empty(),
            self@.len() > N ==> self.stack_view() == self@.take(N as int) && self.heap_view()
                == self@.skip(N as int),
            self.heap_view().len() == if self@.len() <= N {
                0int
            } else {
                self@.len() - N
            },
    {
        self.arr.lemma_len_bounded();
        if self@.len() <= N {
            assert(self.stack_view() =~= self@);
            assert(self.heap_view() =~= Seq::<T>::empty());
        } else {
            assert(self.stack_view() =~= self@.take(N as int));
            assert(self.heap_view() =~= self@.skip(N as int));
        }
    }

    /// Two well-formed containers holding the same logical sequence hold it
    /// split identically between the regions. In particular, rebuilding a
    /// container from the sequence of another (push its elements, in order,
    /// into an empty container) reproduces the length, every per-index value,
    /// and the region split.
    pub proof fn lemma_same_view_same_split(a: &Self, b: &Self)
        requires
            a.wf(),
            b.wf(),
            a@ == b@,
        ensures
            a.stack_view() == b.stack_view(),
            a.heap_view() == b.heap_view(),
    {
        a.lemma_region_split();
        b.lemma_region_split();
    }

    /// Clearing is idempotent: every well-formed empty container holds the
    /// same (empty) regions, so clearing an already cleared container cannot
    /// change the observable state further.
    pub proof fn lemma_clear_idempotent(a: &Self, b: &Self)
        requires
            a.wf(),
            b.wf(),
            a@ == Seq::<T>::empty(),
            b@ == Seq::<T>::empty(),
        ensures
            a.stack_view() == b.stack_view(),
            a.heap_view() == b.heap_view(),
    {
        Self::lemma_same_view_same_split(a, b);
    }

    /// Create an empty container.
    pub fn new() -> (r: Self)
        ensures
            r.wf(),
            r@ == Seq::<T>::empty(),
    {
        let r = ComboVec { arr: ReArr::new(), vec: Vec::new() };
        proof {
            assert(r@ =~= Seq::<T>::empty());
        }
        r
    }

    /// Create a container from an array of slots that are all occupied; the
    /// overflow buffer starts empty.
    pub fn from_arr(arr: [Option<T>; N]) -> (r: Self)
        requires
            forall|i: int| 0 <= i < N ==> arr@[i] is Some,
        ensures
            r.wf(),
            r@.len() == N,
            forall|i: int| 0 <= i < N ==> r@[i] == arr@[i].unwrap(),
            r.heap_view() == Seq::<T>::empty(),
    {
        let r = ComboVec { arr: ReArr::from_arr(arr), vec: Vec::new() };
        proof {
            assert(r@ =~= r.arr@);
        }
        r
    }

    /// Pre-allocate room in the overflow buffer for `additional` more
    /// elements. Never changes the contents.
    pub fn reserve(&mut self, additional: usize)
        requires
            old(self).wf(),
        ensures
            final(self).wf(),
            final(self)@ == old(self)@,
            final(self).stack_view() == old(self).stack_view(),
            final(self).heap_view() == old(self).heap_view(),
    {
        self.vec.reserve(additional);
    }

    /// Append an element: into the fixed region while it has room, otherwise
    /// into the overflow buffer.
    pub fn push(&mut self, val: T)
        requires
            old(self).wf(),
            old(self)@.len() < usize::MAX,
        ensures
            final(self).wf(),
            final(self)@ == old(self)@.push(val),
    {
        if self.arr.len() < N {
            self.arr.push(val);
            proof {
                assert(final(self)@ =~= old(self)@.push(val));
            }
        } else {
            self.vec.push(val);
            proof {
                assert(final(self)@ =~= old(self)@.push(val));
            }
        }
    }

    /// Remove and return the last element, or `None` if the container is
    /// empty. Drains the overflow buffer before the fixed region.
    pub fn pop(&mut self) -> (r: Option<T>)
        requires
            old(self).wf(),
        ensures
            final(self).wf(),
            old(self)@.len() == 0 ==> r is None && final(self)@ == old(self)@,
            old(self)@.len() > 0 ==> r == Some(old(self)@.last()) && final(self)@ == old(
                self,
            )@.drop_last(),
    {
        if self.vec.is_empty() {
            let r = self.arr.pop();
            proof {
                if old(self)@.len() > 0 {
                    assert(final(self)@ =~= old(self)@.drop_last());
                } else {
                    assert(final(self)@ =~= old(self)@);
                }
            }
            r
        } else {
            let r = self.vec.pop();
            proof {
                assert(final(self)@ =~= old(self)@.drop_last());
            }
            r
        }
    }

    /// Read the element at logical index `idx`, or `None` if `idx` is not in
    /// bounds.
    pub fn get(&self, idx: usize) -> (r: Option<&T>)
        requires
            self.wf(),
        ensures
            idx < self@.len() ==> r is Some && r.unwrap() == self@[idx as int],
            idx >= self@.len() ==> r is None,
    {
        if idx < N {
            self.arr.get(idx)
        } else if idx - N < self.vec.len() {
            Some(&self.vec[idx - N])
        } else {
            proof {
                self.arr.lemma_len_bounded();
            }
            None
        }
    }

    /// Borrow the element at logical index `idx` mutably, or `None` if `idx`
    /// is not in bounds. Writing through the borrow replaces that element.
    pub fn get_mut(&mut self, idx: usize) -> (r: Option<&mut T>)
        requires
            old(self).wf(),
        ensures
            final(self).wf(),
            idx < old(self)@.len() ==> r is Some && *r.unwrap() == old(self)@[idx as int]
                && final(self)@ =~= old(self)@.update(idx as int, *final(r.unwrap())),
            idx >= old(self)@.len() ==> r is None && final(self)@ == old(self)@,
    {
        if idx < N {
            self.arr.get_mut(idx)
        } else if idx - N < self.vec.len() {
            let e = &mut self.vec[idx - N];
            Some(e)
        } else {
            proof {
                self.arr.lemma_len_bounded();
            }
            None
        }
    }

    /// Whether any element currently lives in the overflow buffer.
    pub fn spilled(&self) -> (r: bool)
        ensures
            r == (self.heap_view().len() > 0),
    {
        self.vec.len() > 0
    }

    /// How many elements the fixed region currently holds.
    pub fn stack_len(&self) -> (r: usize)
        requires
            self.wf(),
        ensures
            r == self.stack_view().len(),
    {
        self.arr.len()
    }

    /// How many elements the overflow buffer currently holds.
    pub fn heap_len(&self) -> (r: usize)
        ensures
            r == self.heap_view().len(),
    {
        self.vec.len()
    }

    /// How many elements are currently stored.
    pub fn len(&self) -> (r: usize)
        requires
            self.wf(),
        ensures
            r == self@.len(),
    {
        self.arr.len() + self.vec.len()
    }

    /// Whether no element is stored.
    pub fn is_empty(&self) -> (r: bool)
        requires
            self.wf(),
        ensures
            r == (self@.len() == 0),
    {
        self.len() == 0
    }

    /// How many elements the fixed region can hold.
    pub fn stack_capacity(&self) -> (r: usize)
        ensures
            r == N,
    {
        N
    }

    /// How many elements the overflow buffer can hold without reallocating.
    pub fn heap_capacity(&self) -> (r: usize)
        ensures
            r >= self.heap_view().len(),
    {
        vec_capacity(&self.vec)
    }

    /// How many elements can be stored without any reallocation: the fixed
    /// region plus the overflow buffer's current allocation (saturating).
    pub fn capacity(&self) -> (r: usize)
        requires
            self.wf(),
        ensures
            r >= N,
            r >= self@.len(),
    {
        proof {
            self.arr.lemma_len_bounded();
        }
        let hc = vec_capacity(&self.vec);
        if hc > usize::MAX - N {
            usize::MAX
        } else {
            N + hc
        }
    }

    /// Read the first element, or `None` if the container is empty.
    pub fn first(&self) -> (r: Option<&T>)
        requires
            self.wf(),
        ensures
            self@.len() == 0 ==> r is None,
            self@.len() > 0 ==> r is Some && r.unwrap() == self@[0],
    {
        self.get(0)
    }

    /// Borrow the first element mutably, or `None` if the container is
    /// empty.
    pub fn first_mut(&mut self) -> (r: Option<&mut T>)
        requires
            old(self).wf(),
        ensures
            final(self).wf(),
            old(self)@.len() == 0 ==> r is None && final(self)@ == old(self)@,
            old(self)@.len() > 0 ==> r is Some && *r.unwrap() == old(self)@[0] && final(self)@
                =~= old(self)@.update(0, *final(r.unwrap())),
    {
        self.get_mut(0)
    }

    /// Read the last element, or `None` if the container is empty: the
    /// overflow buffer's last if any element has spilled, else the fixed
    /// region's last.
    pub fn last(&self) -> (r: Option<&T>)
        requires
            self.wf(),
        ensures
            self@.len() == 0 ==> r is None,
            self@.len() > 0 ==> r is Some && r.unwrap() == self@.last(),
    {
        let l = self.len();
        if l == 0 {
            None
        } else {
            self.get(l - 1)
        }
    }

    /// Borrow the last element mutably, or `None` if the container is empty.
    pub fn last_mut(&mut self) -> (r: Option<&mut T>)
        requires
            old(self).wf(),
        ensures
            final(self).wf(),
            old(self)@.len() == 0 ==> r is None && final(self)@ == old(self)@,
            old(self)@.len() > 0 ==> r is Some && *r.unwrap() == old(self)@.last()
                && final(self)@ =~= old(self)@.update(old(self)@.len() - 1, *final(r.unwrap())),
    {
        let l = self.len();
        if l == 0 {
            None
        } else {
            self.get_mut(l - 1)
        }
    }

    /// Reduce the number of elements to `new_len`, dropping the tail. Has no
    /// effect when `new_len` is not below the current length. Truncating
    /// below `N` clears the overflow buffer entirely.
    pub fn truncate(&mut self, new_len: usize)
        requires
            old(self).wf(),
        ensures
            final(self).wf(),
            new_len > old(self)@.len() ==> *final(self) == *old(self),
            new_len >= old(self)@.len() ==> final(self)@ == old(self)@
                && final(self).stack_view() == old(self).stack_view()
                && final(self).heap_view() == old(self).heap_view(),
            new_len < old(self)@.len() ==> final(self)@ == old(self)@.take(new_len as int),
    {
        if new_len > self.len() {
            return;
        }
        if new_len >= N {
            self.vec.truncate(new_len - N);
            proof {
                self.arr.lemma_len_bounded();
                if new_len < old(self)@.len() {
                    assert(final(self)@ =~= old(self)@.take(new_len as int));
                } else {
                    assert(final(self).vec@ =~= old(self).vec@);
                    assert(final(self)@ =~= old(self)@);
                }
            }
        } else {
            self.arr.truncate(new_len);
            self.vec.clear();
            proof {
                if new_len < old(self)@.len() {
                    assert(final(self)@ =~= old(self)@.take(new_len as int));
                } else {
                    assert(final(self)@ =~= old(self)@);
                    assert(final(self).heap_view() =~= old(self).heap_view());
                }
            }
        }
    }

    /// Remove all elements from both regions.
    pub fn clear(&mut self)
        requires
            old(self).wf(),
        ensures
            final(self).wf(),
            final(self)@ == Seq::<T>::empty(),
    {
        self.arr.clear();
        self.vec.clear();
        proof {
            assert(final(self)@ =~= Seq::<T>::empty());
        }
    }

    /// Append every element of `other`, in order, each routed as a `push`.
    pub fn extend(&mut self, other: Vec<T>)
        requires
            old(self).wf(),
            old(self)@.len() + other@.len() <= usize::MAX,
        ensures
            final(self).wf(),
            final(self)@ == old(self)@ + other@,
    {
        let ghost all = other@;
        for x in it: other.into_iter()
            invariant
                self.wf(),
                it.seq() == all,
                0 <= it.index() <= all.len(),
                self@ == old(self)@ + all.take(it.index() as int),
                old(self)@.len() + all.len() <= usize::MAX,
        {
            let ghost i = it.index();
            self.push(x);
            proof {
                assert(self@ =~= old(self)@ + all.take(i + 1));
            }
        }
        proof {
            assert(final(self)@ =~= old(self)@ + all);
        }
    }

    /// The elements as a vector of references, in logical order.
    pub fn iter(&self) -> (r: Vec<&T>)
        requires
            self.wf(),
        ensures
            r@.len() == self@.len(),
            forall|i: int| 0 <= i < self@.len() ==> r@[i] == self@[i],
    {
        let mut r = self.arr.iter();
        let mut i: usize = 0;
        while i < self.vec.len()
            invariant
                self.wf(),
                i <= self.vec@.len(),
                r@.len() == self.arr@.len() + i,
                forall|j: int| 0 <= j < r@.len() ==> r@[j] == self@[j],
            decreases self.vec@.len() - i,
        {
            r.push(&self.vec[i]);
            i = i + 1;
        }
        r
    }

    /// The elements as a vector of references, in logical order.
    pub fn ref_vec(&self) -> (r: Vec<&T>)
        requires
            self.wf(),
        ensures
            r@.len() == self@.len(),
            forall|i: int| 0 <= i < self@.len() ==> r@[i] == self@[i],
    {
        self.iter()
    }

    /// Turn the container into a vector holding the same elements, in order.
    pub fn into_vec(self) -> (r: Vec<T>)
        requires
            self.wf(),
        ensures
            r@ == self@,
    {
        let ComboVec { arr, vec } = self;
        let mut r = arr.into_vec();
        let mut rest = vec;
        r.append(&mut rest);
        r
    }

    /// Remove and return the element at logical index `index`, shifting
    /// every later element one place to the left. When the removal vacates a
    /// fixed-region slot while elements have spilled, the overflow buffer's
    /// first element moves into the fixed region to restore the invariant.
    pub fn remove(&mut self, index: usize) -> (r: T)
        requires
            old(self).wf(),
            index < old(self)@.len(),
        ensures
            final(self).wf(),
            r == old(self)@[index as int],
            final(self)@ == old(self)@.remove(index as int),
    {
        proof {
            self.arr.lemma_len_bounded();
        }
        if index >= N {
            let r = self.vec.remove(index - N);
            proof {
                assert(final(self)@ =~= old(self)@.remove(index as int));
            }
            r
        } else {
            let val = self.arr.remove(index);
            if self.vec.len() > 0 {
                let moved = self.vec.remove(0);
                self.arr.push(moved);
            }
            proof {
                assert(final(self)@ =~= old(self)@.remove(index as int));
            }
            val
        }
    }

    /// Remove and return the element at logical index `index`, moving the
    /// last logical element into its place. Does not preserve order.
    pub fn swap_remove(&mut self, index: usize) -> (r: T)
        requires
            old(self).wf(),
            index < old(self)@.len(),
        ensures
            final(self).wf(),
            r == old(self)@[index as int],
            final(self)@ == old(self)@.update(index as int, old(self)@.last()).drop_last(),
    {
        proof {
            self.arr.lemma_len_bounded();
        }
        if index >= N {
            let r = self.vec.swap_remove(index - N);
            proof {
                assert(final(self)@ =~= old(self)@.update(
                    index as int,
                    old(self)@.last(),
                ).drop_last());
            }
            r
        } else if self.vec.len() == 0 {
            let r = self.arr.swap_remove(index);
            proof {
                assert(final(self)@ =~= old(self)@.update(
                    index as int,
                    old(self)@.last(),
                ).drop_last());
            }
            r
        } else {
            let last_val = self.vec.pop().unwrap();
            let r = self.arr.replace(index, last_val);
            proof {
                assert(final(self)@ =~= old(self)@.update(
                    index as int,
                    old(self)@.last(),
                ).drop_last());
            }
            r
        }
    }

    /// Grow to `new_len` elements by appending results of `producer`, or
    /// shrink to `new_len` by truncating.
    pub fn resize_with<F: Fn() -> T>(&mut self, new_len: usize, producer: F)
        requires
            old(self).wf(),
            producer.requires(()),
        ensures
            final(self).wf(),
            final(self)@.len() == new_len,
            new_len <= old(self)@.len() ==> final(self)@ == old(self)@.take(new_len as int),
            new_len > old(self)@.len() ==> (forall|i: int|
                0 <= i < old(self)@.len() ==> final(self)@[i] == old(self)@[i]) && (forall|i: int|
                old(self)@.len() <= i < new_len ==> producer.ensures((), final(self)@[i])),
    {
        if new_len <= self.len() {
            self.truncate(new_len);
        } else {
            while self.len() < new_len
                invariant
                    self.wf(),
                    producer.requires(()),
                    old(self)@.len() <= self@.len() <= new_len,
                    forall|i: int| 0 <= i < old(self)@.len() ==> self@[i] == old(self)@[i],
                    forall|i: int|
                        old(self)@.len() <= i < self@.len() ==> producer.ensures((), self@[i]),
                decreases new_len - self@.len(),
            {
                self.push(producer());
            }
        }
    }
}

impl<T, const N: usize> Default for ComboVec<T, N> {
    /// The default container is empty.
    fn default() -> (r: Self)
        ensures
            r.wf(),
            r@ == Seq::<T>::empty(),
    {
        Self::new()
    }
}

impl<T: Clone, const N: usize> ComboVec<T, N> {
    /// The elements as a vector of clones, in logical order.
    pub fn to_vec(&self) -> (r: Vec<T>)
        requires
            self.wf(),
        ensures
            r@.len() == self@.len(),
            forall|i: int| 0 <= i < self@.len() ==> cloned(self@[i], r@[i]),
    {
        let mut r = self.arr.to_vec();
        let mut i: usize = 0;
        while i < self.vec.len()
            invariant
                self.wf(),
                i <= self.vec@.len(),
                r@.len() == self.arr@.len() + i,
                forall|j: int| 0 <= j < r@.len() ==> cloned(self@[j], r@[j]),
            decreases self.vec@.len() - i,
        {
            r.push(self.vec[i].clone());
            i = i + 1;
        }
        r
    }

    /// Grow to `new_len` elements by appending clones of `val`, or shrink to
    /// `new_len` by truncating.
    pub fn resize(&mut self, new_len: usize, val: T)
        requires
            old(self).wf(),
        ensures
            final(self).wf(),
            final(self)@.len() == new_len,
            new_len <= old(self)@.len() ==> final(self)@ == old(self)@.take(new_len as int),
            new_len > old(self)@.len() ==> (forall|i: int|
                0 <= i < old(self)@.len() ==> final(self)@[i] == old(self)@[i]) && (forall|i: int|
                old(self)@.len() <= i < new_len ==> cloned(val, final(self)@[i])),
    {
        if new_len <= self.len() {
            self.truncate(new_len);
        } else {
            while self.len() < new_len
                invariant
                    self.wf(),
                    old(self)@.len() <= self@.len() <= new_len,
                    forall|i: int| 0 <= i < old(self)@.len() ==> self@[i] == old(self)@[i],
                    forall|i: int| old(self)@.len() <= i < self@.len() ==> cloned(val, self@[i]),
                decreases new_len - self@.len(),
            {
                self.push(val.clone());
            }
        }
    }
}

impl<T: Copy, const N: usize> ComboVec<T, N> {
    /// Create a container from an array whose occupied slots form a
    /// contiguous prefix; that prefix becomes the contents and the overflow
    /// buffer starts empty.
    pub fn from_arr_and_len(arr: &[Option<T>; N]) -> (r: Self)
        requires
            contiguous_prefix(arr@),
        ensures
            r.wf(),
            r@.len() <= N,
            forall|i: int| 0 <= i < r@.len() ==> (#[trigger] arr@[i]) is Some,
            forall|i: int| 0 <= i < r@.len() ==> r@[i] == (#[trigger] arr@[i]).unwrap(),
            r@.len() < N ==> arr@[r@.len() as int] is None,
            r.heap_view() == Seq::<T>::empty(),
    {
        let r = ComboVec { arr: ReArr::from_arr_and_len(arr), vec: Vec::new() };
        proof {
            assert(r@ =~= r.arr@);
            assert forall|i: int|
                0 <= i < r@.len() implies r@[i] == (#[trigger] arr@[i]).unwrap() by {
                assert(r@[i] == r.arr@[i]);
            }
        }
        r
    }
}

impl<const N: usize> ComboVec<String, N> {
    /// Join the elements into one string with `sep` between consecutive
    /// elements.
    pub fn join(&self, sep: &str) -> (r: String)
        requires
            self.wf(),
        ensures
            r@ == joined(self@.map_values(|s: String| s@), sep@),
    {
        let ghost elems = self@.map_values(|s: String| s@);
        proof {
            self.arr.lemma_len_bounded();
        }
        let mut r = String::new();
        let n = self.arr.len();
        let mut i: usize = 0;
        while i < n
            invariant
                self.wf(),
                n == self.arr@.len(),
                n <= N,
                i <= n,
                elems == self@.map_values(|s: String| s@),
                r@ == joined(elems.take(i as int), sep@),
            decreases n - i,
        {
            if i != 0 {
                r.append(sep);
            }
            let elem = self.arr.get(i).unwrap();
            r.append(elem.as_str());
            proof {
                lemma_joined_step(elems, sep@, i as int);
            }
            i = i + 1;
        }
        let m = self.vec.len();
        let mut j: usize = 0;
        while j < m
            invariant
                self.wf(),
                n == self.arr@.len(),
                m == self.vec@.len(),
                n + m <= usize::MAX,
                j <= m,
                elems == self@.map_values(|s: String| s@),
                r@ == joined(elems.take(n + j), sep@),
            decreases m - j,
        {
            if n + j != 0 {
                r.append(sep);
            }
            r.append(self.vec[j].as_str());
            proof {
                lemma_joined_step(elems, sep@, n + j);
            }
            j = j + 1;
        }
        proof {
            assert(elems.take((n + m) as int) =~= elems);
        }
        r
    }
}

} // verus!
