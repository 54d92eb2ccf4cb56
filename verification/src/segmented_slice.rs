//! A slice that is stored as several parts.

use core::cmp::Ordering;
use core::ops::Index;
use vstd::prelude::*;
use vstd::std_specs::cmp::{PartialEqSpec, PartialOrdSpec};
use vstd::std_specs::convert::FromSpecImpl;

verus! {

/// A sequence of elements that lie in several slices, one after the other.
#[derive(Debug, Clone, Copy)]
pub struct SegmentedSlice<'s, T>(&'s [&'s [T]]);

/// The contents of the parts of `parts`.
pub open spec fn contents<T>(parts: &[&[T]]) -> Seq<Seq<T>> {
    parts@.map_values(|part: &[T]| part@)
}

/// `copy` holds a clone of each element of `s`, in the same order.
pub open spec fn is_copy<T: Clone>(s: Seq<T>, copy: Seq<T>) -> bool {
    &&& copy.len() == s.len()
    &&& forall|i: int| 0 <= i < s.len() ==> cloned(s[i], #[trigger] copy[i])
}

/// Every clone equals its original.
pub open spec fn clones_are_equal<T: Clone>() -> bool {
    forall|x: T, y: T| #[trigger] cloned(x, y) ==> x == y
}

/// The position `i` as a mathematical integer.
pub open spec fn pos(i: usize) -> int {
    i as int
}

impl<'s, T> SegmentedSlice<'s, T> {
    /// The contents of each part.
    pub closed spec fn segments(&self) -> Seq<Seq<T>> {
        contents(self.0)
    }

    /// How many elements the first `k` parts hold.
    pub open spec fn offset(&self, k: int) -> nat {
        self.segments().take(k).flatten().len()
    }
}

impl<'s, T> View for SegmentedSlice<'s, T> {
    type V = Seq<T>;

    open spec fn view(&self) -> Seq<T> {
        self.segments().flatten()
    }
}

impl<'s, T: Clone> SegmentedSlice<'s, T> {
    /// The number of elements in all parts together.
    pub fn total_len(&self) -> (len: usize)
        requires
            self@.len() <= usize::MAX,
        ensures
            len == self@.len(),
    {
        let mut sum: usize = 0;
        let mut k: usize = 0;
        proof {
            assert(self.segments().skip(0) =~= self.segments());
        }
        while k < self.0.len()
            invariant
                k <= self.0@.len(),
                self.0@.len() == self.segments().len(),
                sum + self.segments().skip(k as int).flatten().len() == self@.len(),
                self@.len() <= usize::MAX,
            decreases self.0@.len() - k,
        {
            proof {
                lemma_skip_flatten(self.segments(), k as int);
            }
            sum = sum + self.0[k].len();
            k = k + 1;
        }
        sum
    }

    /// References to the elements, in order.
    pub fn iter(&self) -> (items: Vec<&T>)
        ensures
            items@ == self@.as_ref(),
    {
        let mut items: Vec<&T> = Vec::new();
        let mut k: usize = 0;
        proof {
            assert(self.segments().skip(0) =~= self.segments());
        }
        while k < self.0.len()
            invariant
                k <= self.0@.len(),
                self.0@.len() == self.segments().len(),
                items@ + self.segments().skip(k as int).flatten().as_ref() =~= self@.as_ref(),
            decreases self.0@.len() - k,
        {
            proof {
                lemma_skip_flatten(self.segments(), k as int);
            }
            let part: &[T] = self.0[k];
            let ghost before = items@;
            let mut i: usize = 0;
            while i < part.len()
                invariant
                    i <= part@.len(),
                    items@ =~= before + part@.take(i as int).as_ref(),
                decreases part@.len() - i,
            {
                items.push(&part[i]);
                i = i + 1;
            }
            assert(items@ =~= before + part@.as_ref());
            k = k + 1;
        }
        items
    }

    /// A copy of all elements in one vector.
    pub fn to_vec(&self) -> (v: Vec<T>)
        requires
            self@.len() <= usize::MAX,
        ensures
            is_copy(self@, v@),
            v@.len() == self@.len(),
            forall|i: int| 0 <= i < self@.len() ==> cloned(self@[i], #[trigger] v@[i]),
    {
        let mut v: Vec<T> = Vec::with_capacity(self.total_len());
        let mut k: usize = 0;
        let ghost mut done: Seq<T> = Seq::empty();
        proof {
            assert(self.segments().skip(0) =~= self.segments());
        }
        while k < self.0.len()
            invariant
                k <= self.0@.len(),
                self.0@.len() == self.segments().len(),
                done + self.segments().skip(k as int).flatten() =~= self@,
                v@.len() == done.len(),
                forall|i: int| 0 <= i < done.len() ==> cloned(done[i], #[trigger] v@[i]),
            decreases self.0@.len() - k,
        {
            proof {
                lemma_skip_flatten(self.segments(), k as int);
                done = done + self.segments()[k as int];
            }
            v.extend_from_slice(self.0[k]);
            k = k + 1;
        }
        v
    }
}

/// The elements from part `k` on are those of part `k` and then those of the
/// parts after it.
proof fn lemma_skip_flatten<T>(parts: Seq<Seq<T>>, k: int)
    requires
        0 <= k < parts.len(),
    ensures
        parts.skip(k).flatten() == parts[k] + parts.skip(k + 1).flatten(),
{
    assert(parts.skip(k).drop_first() =~= parts.skip(k + 1));
}

impl<'s, T> From<&'s [&'s [T]]> for SegmentedSlice<'s, T> {
    fn from(s: &'s [&'s [T]]) -> (r: Self)
        ensures
            r.segments() == contents(s),
            r.segments().len() == s@.len(),
            forall|i: int| 0 <= i < s@.len() ==> #[trigger] r.segments()[i] == s@[i]@,
    {
        Self(s)
    }
}

impl<'s, T> FromSpecImpl<&'s [&'s [T]]> for SegmentedSlice<'s, T> {
    open spec fn obeys_from_spec() -> bool {
        true
    }

    closed spec fn from_spec(s: &'s [&'s [T]]) -> Self {
        Self(s)
    }
}

impl<'s, T: Clone> Index<usize> for SegmentedSlice<'s, T> {
    type Output = T;

    fn index(&self, index: usize) -> (item: &T)
        ensures
            *item == self@[index as int],
    {
        let mut left: usize = index;
        let mut k: usize = 0;
        proof {
            assert(self.segments().skip(0) =~= self.segments());
        }
        loop
            invariant
                k <= self.0@.len(),
                self.0@.len() == self.segments().len(),
                left < self.segments().skip(k as int).flatten().len(),
                self.segments().skip(k as int).flatten()[left as int] == self@[index as int],
            decreases self.0@.len() - k,
        {
            proof {
                if k == self.0@.len() {
                    assert(self.segments().skip(k as int) =~= Seq::empty());
                }
                lemma_skip_flatten(self.segments(), k as int);
            }
            let part: &[T] = self.0[k];
            if left < part.len() {
                return &part[left];
            }
            left = left - part.len();
            k = k + 1;
        }
    }
}

impl<'s, T: Clone> vstd::std_specs::core::IndexSpecImpl<usize> for SegmentedSlice<'s, T> {
    open spec fn index_req(&self, index: &usize) -> bool {
        *index < self@.len()
    }
}

/// Whether two equally long sequences agree element by element.
pub open spec fn agree<T: PartialEq>(a: Seq<T>, b: Seq<T>) -> bool {
    forall|i: int| 0 <= i < a.len() ==> (#[trigger] a[i]).eq_spec(&b[i])
}

/// Whether `s` begins with elements that are equal to those of `front`.
pub open spec fn begins_with<T: PartialEq>(s: Seq<T>, front: Seq<T>) -> bool {
    front.len() <= s.len() && agree(front, s.take(front.len() as int))
}

/// The order of two equally long sequences: that of the first two elements
/// that are not equal.
pub open spec fn lexicographic<T: PartialOrd>(a: Seq<T>, b: Seq<T>) -> Option<Ordering>
    decreases a.len(),
{
    if a.len() == 0 {
        Some(Ordering::Equal)
    } else {
        match a[0].partial_cmp_spec(&b[0]) {
            Some(Ordering::Equal) => lexicographic(a.drop_first(), b.drop_first()),
            other => other,
        }
    }
}

/// Compares two equally long slices for equality.
fn slices_agree<T: PartialEq>(a: &[T], b: &[T]) -> (r: bool)
    requires
        a@.len() == b@.len(),
    ensures
        T::obeys_eq_spec() ==> r == agree(a@, b@),
{
    let mut i: usize = 0;
    while i < a.len()
        invariant
            i <= a@.len() == b@.len(),
            T::obeys_eq_spec() ==> forall|j: int| 0 <= j < i ==> (#[trigger] a@[j]).eq_spec(&b@[j]),
        decreases a@.len() - i,
    {
        if !a[i].eq(&b[i]) {
            assert(T::obeys_eq_spec() ==> !a@[i as int].eq_spec(&b@[i as int]));
            return false;
        }
        i = i + 1;
    }
    true
}

/// Orders two equally long slices.
fn slices_order<T: PartialOrd>(a: &[T], b: &[T]) -> (r: Option<Ordering>)
    requires
        a@.len() == b@.len(),
    ensures
        T::obeys_partial_cmp_spec() ==> r == lexicographic(a@, b@),
{
    let mut i: usize = 0;
    proof {
        assert(a@.skip(0) =~= a@);
        assert(b@.skip(0) =~= b@);
    }
    while i < a.len()
        invariant
            i <= a@.len() == b@.len(),
            T::obeys_partial_cmp_spec() ==> lexicographic(a@, b@) == lexicographic(
                a@.skip(pos(i)),
                b@.skip(pos(i)),
            ),
        decreases a@.len() - i,
    {
        proof {
            assert(a@.skip(pos(i)).drop_first() =~= a@.skip(pos(i) + 1));
            assert(b@.skip(pos(i)).drop_first() =~= b@.skip(pos(i) + 1));
        }
        match a[i].partial_cmp(&b[i]) {
            Some(Ordering::Equal) => (),
            not_equal => return not_equal,
        }
        i = i + 1;
    }
    Some(Ordering::Equal)
}

impl<'s, T: Clone + PartialEq> SegmentedSlice<'s, T> {
    /// Some part lies within the length of `other` and differs from it.
    pub open spec fn differs_within(&self, other: Seq<T>) -> bool {
        exists|k: int, i: int|
            #![trigger self.offset(k), self@[i]]
            0 <= k <= self.segments().len() && self.offset(k) <= other.len() && 0 <= i < self.offset(
                k,
            ) && !self@[i].eq_spec(&other[i])
    }

    /// Whether `other` begins with the elements of all parts. Where `other`
    /// ends inside of a part, an earlier part has to differ from it.
    pub fn eq(&self, other: &[T]) -> (r: bool)
        requires
            self@.len() <= other@.len() || (T::obeys_eq_spec() && self.differs_within(other@)),
        ensures
            T::obeys_eq_spec() ==> r == begins_with(other@, self@),
            T::obeys_eq_spec() ==> (r <==> self@.len() <= other@.len() && forall|i: int|
                0 <= i < self@.len() ==> (#[trigger] self@[i]).eq_spec(&other@[i])),
    {
        let mut rest: &[T] = other;
        let mut k: usize = 0;
        proof {
            assert(self.segments().skip(0) =~= self.segments());
            assert(self.segments().take(0).flatten() =~= Seq::<T>::empty());
            assert(other@.skip(0) =~= other@);
        }
        while k < self.0.len()
            invariant
                k <= self.0@.len(),
                self.0@.len() == self.segments().len(),
                self@.len() <= other@.len() || (T::obeys_eq_spec() && self.differs_within(other@)),
                self.offset(k as int) <= other@.len(),
                rest@ == other@.skip(self.offset(k as int) as int),
                self@ =~= self.segments().take(k as int).flatten() + self.segments().skip(
                    k as int,
                ).flatten(),
                T::obeys_eq_spec() ==> forall|i: int|
                    0 <= i < self.offset(k as int) ==> (#[trigger] self@[i]).eq_spec(&other@[i]),
            decreases self.0@.len() - k,
        {
            proof {
                lemma_skip_flatten(self.segments(), k as int);
                lemma_take_flatten(self.segments(), k as int);
                if self@.len() > other@.len() {
                    self.lemma_part_fits(other@, k as int);
                }
            }
            let part: &[T] = self.0[k];
            let (front, back) = rest.split_at(part.len());
            if !slices_agree(part, front) {
                proof {
                    if T::obeys_eq_spec() {
                        let j = choose|j: int|
                            0 <= j < part@.len() && !(#[trigger] part@[j]).eq_spec(&front@[j]);
                        let i = self.offset(k as int) + j;
                        assert(self@[i] == part@[j]);
                        assert(other@[i] == front@[j]);
                        if self@.len() <= other@.len() {
                            assert(other@.take(self@.len() as int)[i] == other@[i]);
                        }
                    }
                }
                return false;
            }
            proof {
                if T::obeys_eq_spec() {
                    assert forall|i: int| 0 <= i < self.offset(k + 1) implies (
                    #[trigger] self@[i]).eq_spec(&other@[i]) by {
                        let j = i - self.offset(k as int);
                        if 0 <= j {
                            assert(self@[i] == part@[j]);
                            assert(other@[i] == front@[j]);
                        }
                    }
                }
                assert(back@ =~= other@.skip(self.offset(k + 1) as int));
            }
            rest = back;
            k = k + 1;
        }
        proof {
            assert(self.segments().take(k as int) =~= self.segments());
        }
        true
    }

    /// A part that begins within `other`, after parts that all agree with it,
    /// ends within it as well, if some part within `other` differs.
    proof fn lemma_part_fits(&self, other: Seq<T>, k: int)
        requires
            0 <= k < self.segments().len(),
            self.differs_within(other),
            forall|i: int| 0 <= i < self.offset(k) ==> (#[trigger] self@[i]).eq_spec(&other[i]),
        ensures
            self.offset(k + 1) <= other.len(),
    {
        let (m, i) = choose|m: int, i: int|
            #![trigger self.offset(m), self@[i]]
            0 <= m <= self.segments().len() && self.offset(m) <= other.len() && 0 <= i
                < self.offset(m) && !self@[i].eq_spec(&other[i]);
        if m <= k {
            self.lemma_offset_grows(m, k);
        } else {
            self.lemma_offset_grows(k + 1, m);
        }
    }
}

impl<'s, T> SegmentedSlice<'s, T> {
    /// Later parts begin later.
    proof fn lemma_offset_grows(&self, j: int, k: int)
        requires
            0 <= j <= k <= self.segments().len(),
        ensures
            self.offset(j) <= self.offset(k),
        decreases k - j,
    {
        if j < k {
            lemma_take_flatten(self.segments(), j);
            self.lemma_offset_grows(j + 1, k);
        }
    }
}

/// The elements of the first `k + 1` parts are those of the first `k` parts
/// and then those of part `k`.
proof fn lemma_take_flatten<T>(parts: Seq<Seq<T>>, k: int)
    requires
        0 <= k < parts.len(),
    ensures
        parts.take(k + 1).flatten() == parts.take(k).flatten() + parts[k],
    decreases k,
{
    assert(parts.take(k + 1).drop_first() =~= parts.drop_first().take(k));
    if k == 0 {
        assert(parts.take(1).drop_first() =~= Seq::<Seq<T>>::empty());
        assert(parts.take(0).flatten() =~= Seq::<T>::empty());
        parts.take(1).lemma_flatten_one_element();
        assert(parts.take(0).flatten() + parts[0] =~= parts[0]);
    } else {
        lemma_take_flatten(parts.drop_first(), k - 1);
        assert(parts.take(k).drop_first() =~= parts.drop_first().take(k - 1));
        assert(parts.take(k + 1).flatten() =~= parts.take(k).flatten() + parts[k]);
    }
}

/// The order of the first part that is not equal to the front of `other`, or
/// `Equal` if there is none.
pub open spec fn order_of_parts<T: PartialOrd>(parts: Seq<Seq<T>>, other: Seq<T>) -> Option<
    Ordering,
>
    decreases parts.len(),
{
    if parts.len() == 0 {
        Some(Ordering::Equal)
    } else {
        match order_of_part(parts[0], other) {
            Some(Ordering::Equal) => order_of_parts(parts.drop_first(), other),
            not_equal => not_equal,
        }
    }
}

/// The order of `part` and the equally long front of `other`.
pub open spec fn order_of_part<T: PartialOrd>(part: Seq<T>, other: Seq<T>) -> Option<Ordering> {
    lexicographic(part, other.take(count(part)))
}

/// The length of `s` as an integer.
pub open spec fn count<T>(s: Seq<T>) -> int {
    s.len() as int
}

/// Every part up to the first one that is not equal to the front of `other`
/// is no longer than `other`.
pub open spec fn parts_fit<T: PartialOrd>(parts: Seq<Seq<T>>, other: Seq<T>) -> bool {
    forall|k: int|
        0 <= k < parts.len() && (T::obeys_partial_cmp_spec() ==> order_of_parts(
            parts.take(k),
            other,
        ) == Some(Ordering::Equal)) ==> (#[trigger] parts[k]).len() <= other.len()
}

/// The order of two lengths.
pub open spec fn order_of_lengths(a: nat, b: nat) -> Ordering {
    if a < b {
        Ordering::Less
    } else if a == b {
        Ordering::Equal
    } else {
        Ordering::Greater
    }
}

impl<'s, T: Clone + PartialOrd> SegmentedSlice<'s, T> {
    /// The order of the first part that is not equal to the front of `other`,
    /// or else that of the lengths.
    pub open spec fn order(&self, other: Seq<T>) -> Option<Ordering> {
        match order_of_parts(self.segments(), other) {
            Some(Ordering::Equal) => Some(order_of_lengths(self@.len(), other.len())),
            not_equal => not_equal,
        }
    }

    /// Compares every part with the front of `other`. The first part that is
    /// not equal decides, then the number of elements.
    pub fn partial_cmp(&self, other: &[T]) -> (r: Option<Ordering>)
        requires
            self@.len() <= usize::MAX,
            parts_fit(self.segments(), other@),
        ensures
            T::obeys_partial_cmp_spec() ==> r == self.order(other@),
    {
        let self_len: usize = self.total_len();
        let mut k: usize = 0;
        proof {
            assert(self.segments().skip(0) =~= self.segments());
        }
        while k < self.0.len()
            invariant
                k <= self.0@.len(),
                self.0@.len() == self.segments().len(),
                parts_fit(self.segments(), other@),
                T::obeys_partial_cmp_spec() ==> order_of_parts(self.segments().take(pos(k)), other@)
                    == Some(Ordering::Equal),
                T::obeys_partial_cmp_spec() ==> order_of_parts(self.segments(), other@)
                    == order_of_parts(self.segments().skip(pos(k)), other@),
            decreases self.0@.len() - k,
        {
            assert(self.segments()[pos(k)].len() <= other@.len());
            let part: &[T] = self.0[k];
            let (front, _back) = other.split_at(part.len());
            proof {
                assert(front@ =~= other@.take(count(part@)));
                assert(self.segments().skip(pos(k)).drop_first() =~= self.segments().skip(
                    pos(k) + 1,
                ));
                lemma_order_of_parts_push(self.segments().take(pos(k)), part@, other@);
                assert(self.segments().take(pos(k)).push(part@) =~= self.segments().take(
                    pos(k) + 1,
                ));
            }
            match slices_order(part, front) {
                Some(Ordering::Equal) => (),
                not_equal => return not_equal,
            }
            k = k + 1;
        }
        if self_len < other.len() {
            Some(Ordering::Less)
        } else if self_len == other.len() {
            Some(Ordering::Equal)
        } else {
            Some(Ordering::Greater)
        }
    }
}

/// Parts that are all equal to the front of `other` leave the decision to the
/// next part.
proof fn lemma_order_of_parts_push<T: PartialOrd>(parts: Seq<Seq<T>>, part: Seq<T>, other: Seq<T>)
    ensures
        order_of_parts(parts, other) == Some(Ordering::Equal) ==> order_of_parts(
            parts.push(part),
            other,
        ) == order_of_part(part, other),
    decreases parts.len(),
{
    if parts.len() == 0 {
        assert(parts.push(part).drop_first() =~= Seq::empty());
        assert(order_of_parts(parts.push(part).drop_first(), other) == Some(Ordering::Equal));
    } else {
        assert(parts.push(part).drop_first() =~= parts.drop_first().push(part));
        lemma_order_of_parts_push(parts.drop_first(), part, other);
    }
}

/// The elements lie part after part: those of part `k` come after those of the
/// parts before it, in the order that they have in the part.
pub proof fn law_elements_lie_part_after_part<T>(s: SegmentedSlice<T>, k: int, j: int)
    requires
        0 <= k < s.segments().len(),
        0 <= j < s.segments()[k].len(),
    ensures
        s.offset(k) + j < s.offset(k + 1) <= s@.len(),
        s.offset(k + 1) == s.offset(k) + s.segments()[k].len(),
        s@[s.offset(k) + j] == s.segments()[k][j],
        s.offset(0) == 0,
        s.offset(s.segments().len() as int) == s@.len(),
{
    let parts = s.segments();
    lemma_take_flatten(parts, k);
    lemma_skip_flatten(parts, k);
    assert(parts.take(k) + parts.skip(k) =~= parts);
    vstd::seq_lib::lemma_flatten_concat(parts.take(k), parts.skip(k));
    s.lemma_offset_grows(k + 1, parts.len() as int);
    assert(parts.take(parts.len() as int) =~= parts);
    assert(parts.take(0).flatten() =~= Seq::<T>::empty());
}

/// It does not matter where a slice is divided: slices whose parts have the
/// same contents together have the same elements.
pub proof fn law_parts_are_joined<T>(
    s: SegmentedSlice<T>,
    front: SegmentedSlice<T>,
    back: SegmentedSlice<T>,
)
    requires
        s.segments() == front.segments() + back.segments(),
    ensures
        s@ == front@ + back@,
{
    vstd::seq_lib::lemma_flatten_concat(front.segments(), back.segments());
}

/// A copy of the front and then a copy of the back is a copy of the whole, and
/// the only one if clones equal their originals.
pub proof fn law_copies_are_joined<T: Clone>(
    s: SegmentedSlice<T>,
    front: SegmentedSlice<T>,
    back: SegmentedSlice<T>,
    front_copy: Seq<T>,
    back_copy: Seq<T>,
    copy: Seq<T>,
)
    requires
        s.segments() == front.segments() + back.segments(),
        is_copy(front@, front_copy),
        is_copy(back@, back_copy),
        is_copy(s@, copy),
    ensures
        is_copy(s@, front_copy + back_copy),
        clones_are_equal::<T>() ==> copy == front_copy + back_copy,
{
    law_parts_are_joined(s, front, back);
    let joined = front_copy + back_copy;
    assert forall|i: int| 0 <= i < s@.len() implies cloned(s@[i], #[trigger] joined[i]) by {
        if i < front@.len() {
            assert(cloned(front@[i], front_copy[i]));
        } else {
            assert(cloned(back@[i - front@.len()], back_copy[i - front@.len()]));
        }
    }
    if clones_are_equal::<T>() {
        assert forall|i: int| 0 <= i < s@.len() implies copy[i] == joined[i] by {
            assert(cloned(s@[i], copy[i]));
            assert(cloned(s@[i], joined[i]));
        }
        assert(copy =~= joined);
    }
}

/// Slices with the same elements have the same copies if clones equal their
/// originals, however they are divided.
pub proof fn law_copies_are_equal<T: Clone>(
    a: SegmentedSlice<T>,
    b: SegmentedSlice<T>,
    a_copy: Seq<T>,
    b_copy: Seq<T>,
)
    requires
        a@ == b@,
        is_copy(a@, a_copy),
        is_copy(b@, b_copy),
        clones_are_equal::<T>(),
    ensures
        a_copy == b_copy,
{
    assert forall|i: int| 0 <= i < a@.len() implies a_copy[i] == b_copy[i] by {
        assert(cloned(a@[i], a_copy[i]));
        assert(cloned(b@[i], b_copy[i]));
    }
    assert(a_copy =~= b_copy);
}

/// An empty part makes no difference, wherever it is inserted.
pub proof fn law_empty_part<T>(s: SegmentedSlice<T>, with: SegmentedSlice<T>, k: int)
    requires
        0 <= k <= s.segments().len(),
        with.segments() == s.segments().insert(k, Seq::empty()),
    ensures
        with@ == s@,
{
    let (front, back) = (s.segments().take(k), s.segments().skip(k));
    let none = seq![Seq::<T>::empty()];
    none.lemma_flatten_one_element();
    assert(s.segments() =~= front + back);
    assert(with.segments() =~= front + none + back);
    vstd::seq_lib::lemma_flatten_concat(front, back);
    vstd::seq_lib::lemma_flatten_concat(front, none);
    vstd::seq_lib::lemma_flatten_concat(front + none, back);
    assert(with@ =~= s@);
}

/// A part can be divided in two.
pub proof fn law_divided_part<T>(s: SegmentedSlice<T>, divided: SegmentedSlice<T>, k: int, at: int)
    requires
        0 <= k < s.segments().len(),
        0 <= at <= s.segments()[k].len(),
        divided.segments() == s.segments().take(k) + seq![
            s.segments()[k].take(at),
            s.segments()[k].skip(at),
        ] + s.segments().skip(k + 1),
    ensures
        divided@ == s@,
{
    let part = s.segments()[k];
    let (front, back) = (s.segments().take(k), s.segments().skip(k + 1));
    let (one, two) = (seq![part], seq![part.take(at), part.skip(at)]);
    one.lemma_flatten_one_element();
    assert(seq![part.take(at)] + seq![part.skip(at)] =~= two);
    seq![part.take(at)].lemma_flatten_one_element();
    seq![part.skip(at)].lemma_flatten_one_element();
    vstd::seq_lib::lemma_flatten_concat(seq![part.take(at)], seq![part.skip(at)]);
    assert(part =~= part.take(at) + part.skip(at));
    assert(s.segments() =~= front + one + back);
    vstd::seq_lib::lemma_flatten_concat(front, one);
    vstd::seq_lib::lemma_flatten_concat(front + one, back);
    vstd::seq_lib::lemma_flatten_concat(front, two);
    vstd::seq_lib::lemma_flatten_concat(front + two, back);
}

/// A slice in one part has the elements of that part.
pub proof fn law_one_part<T>(s: SegmentedSlice<T>)
    requires
        s.segments().len() == 1,
    ensures
        s@ == s.segments()[0],
{
    s.segments().lemma_flatten_one_element();
}

/// If elements are equal only to themselves, a slice is found equal to an
/// equally long one exactly if both have the same elements.
pub proof fn law_equal_slices_have_the_same_elements<T: PartialEq>(a: Seq<T>, b: Seq<T>)
    requires
        a.len() == b.len(),
        forall|x: T, y: T| #[trigger] x.eq_spec(&y) <==> x == y,
    ensures
        begins_with(b, a) <==> a == b,
{
    assert(b.take(count(a)) =~= b);
    if begins_with(b, a) {
        assert forall|i: int| 0 <= i < a.len() implies a[i] == b[i] by {
            assert(a[i].eq_spec(&b.take(count(a))[i]));
        }
        assert(a =~= b);
    }
}

/// A slice in one part that is no longer than `other` is ordered like that
/// part: the first elements that are not equal decide, then the lengths.
pub proof fn law_order_of_one_part<T: Clone + PartialOrd>(s: SegmentedSlice<T>, other: Seq<T>)
    requires
        s.segments().len() == 1,
        s@.len() <= other.len(),
    ensures
        s.order(other) == match lexicographic(s@, other.take(count(s@))) {
            Some(Ordering::Equal) => Some(order_of_lengths(s@.len(), other.len())),
            not_equal => not_equal,
        },
{
    law_one_part(s);
    assert(order_of_parts(s.segments().drop_first(), other) == Some(Ordering::Equal));
}

/// The first two elements that are not equal decide the order of two equally
/// long sequences, wherever they are.
pub proof fn law_first_difference_decides<T: PartialOrd>(a: Seq<T>, b: Seq<T>, i: int)
    requires
        a.len() == b.len(),
        0 <= i < a.len(),
        forall|j: int|
            0 <= j < i ==> (#[trigger] a[j]).partial_cmp_spec(&b[j]) == Some(Ordering::Equal),
        a[i].partial_cmp_spec(&b[i]) != Some(Ordering::Equal),
    ensures
        lexicographic(a, b) == a[i].partial_cmp_spec(&b[i]),
    decreases a.len(),
{
    if i > 0 {
        assert(a[0].partial_cmp_spec(&b[0]) == Some(Ordering::Equal));
        law_first_difference_decides(a.drop_first(), b.drop_first(), i - 1);
    }
}

/// Two equally long sequences are in the same place exactly if their elements
/// are, pair by pair.
pub proof fn law_equal_order_means_equal_elements<T: PartialOrd>(a: Seq<T>, b: Seq<T>)
    requires
        a.len() == b.len(),
    ensures
        lexicographic(a, b) == Some(Ordering::Equal) <==> forall|i: int|
            0 <= i < a.len() ==> (#[trigger] a[i]).partial_cmp_spec(&b[i]) == Some(Ordering::Equal),
    decreases a.len(),
{
    if a.len() > 0 {
        let (a_rest, b_rest) = (a.drop_first(), b.drop_first());
        law_equal_order_means_equal_elements(a_rest, b_rest);
        if lexicographic(a, b) == Some(Ordering::Equal) {
            assert forall|i: int| 0 <= i < a.len() implies (#[trigger] a[i]).partial_cmp_spec(&b[i])
                == Some(Ordering::Equal) by {
                if i > 0 {
                    assert(a_rest[i - 1].partial_cmp_spec(&b_rest[i - 1]) == Some(Ordering::Equal));
                }
            }
        }
        if forall|i: int|
            0 <= i < a.len() ==> (#[trigger] a[i]).partial_cmp_spec(&b[i]) == Some(
                Ordering::Equal,
            ) {
            assert(a[0].partial_cmp_spec(&b[0]) == Some(Ordering::Equal));
            assert forall|i: int| 0 <= i < a_rest.len() implies (
            #[trigger] a_rest[i]).partial_cmp_spec(&b_rest[i]) == Some(Ordering::Equal) by {
                assert(a[i + 1].partial_cmp_spec(&b[i + 1]) == Some(Ordering::Equal));
            }
        }
    }
}

/// Parts that are all equal to the front of `other`, element by element, leave
/// the decision to the parts after them.
proof fn lemma_equal_parts_decide_nothing<T: PartialOrd>(parts: Seq<Seq<T>>, other: Seq<T>, k: int)
    requires
        0 <= k <= parts.len(),
        forall|m: int| 0 <= m < k ==> (#[trigger] parts[m]).len() <= other.len(),
        forall|m: int, j: int|
            0 <= m < k && 0 <= j < parts[m].len() ==> (#[trigger] parts[m][j]).partial_cmp_spec(
                &other[j],
            ) == Some(Ordering::Equal),
    ensures
        order_of_parts(parts, other) == order_of_parts(parts.skip(k), other),
    decreases k,
{
    if k == 0 {
        assert(parts.skip(0) =~= parts);
    } else {
        let front = other.take(count(parts[0]));
        assert forall|j: int| 0 <= j < parts[0].len() implies (
        #[trigger] parts[0][j]).partial_cmp_spec(&front[j]) == Some(Ordering::Equal) by {
            assert(parts[0][j].partial_cmp_spec(&other[j]) == Some(Ordering::Equal));
        }
        law_equal_order_means_equal_elements(parts[0], front);
        let rest = parts.drop_first();
        assert forall|m: int, j: int| 0 <= m < k - 1 && 0 <= j < rest[m].len() implies (
        #[trigger] rest[m][j]).partial_cmp_spec(&other[j]) == Some(Ordering::Equal) by {
            assert(parts[m + 1][j].partial_cmp_spec(&other[j]) == Some(Ordering::Equal));
        }
        lemma_equal_parts_decide_nothing(rest, other, k - 1);
        assert(rest.skip(k - 1) =~= parts.skip(k));
    }
}

/// The first element, part by part, that is not equal to the one in its place
/// in `other` decides the order of a slice.
pub proof fn law_first_different_element_orders_a_slice<T: Clone + PartialOrd>(
    s: SegmentedSlice<T>,
    other: Seq<T>,
    k: int,
    i: int,
)
    requires
        0 <= k < s.segments().len(),
        0 <= i < s.segments()[k].len(),
        forall|m: int| 0 <= m <= k ==> (#[trigger] s.segments()[m]).len() <= other.len(),
        forall|m: int, j: int|
            0 <= m < k && 0 <= j < s.segments()[m].len() ==> (
            #[trigger] s.segments()[m][j]).partial_cmp_spec(&other[j]) == Some(Ordering::Equal),
        forall|j: int|
            0 <= j < i ==> (#[trigger] s.segments()[k][j]).partial_cmp_spec(&other[j]) == Some(
                Ordering::Equal,
            ),
        s.segments()[k][i].partial_cmp_spec(&other[i]) != Some(Ordering::Equal),
    ensures
        s.order(other) == s.segments()[k][i].partial_cmp_spec(&other[i]),
{
    let parts = s.segments();
    lemma_equal_parts_decide_nothing(parts, other, k);
    let front = other.take(count(parts[k]));
    assert forall|j: int| 0 <= j < i implies (#[trigger] parts[k][j]).partial_cmp_spec(&front[j])
        == Some(Ordering::Equal) by {
        assert(parts[k][j].partial_cmp_spec(&other[j]) == Some(Ordering::Equal));
    }
    law_first_difference_decides(parts[k], front, i);
    assert(parts.skip(k)[0] == parts[k]);
}

/// If every element of every part is equal to the one in its place in `other`,
/// the lengths decide the order of a slice.
pub proof fn law_lengths_order_a_slice_of_equal_elements<T: Clone + PartialOrd>(
    s: SegmentedSlice<T>,
    other: Seq<T>,
)
    requires
        forall|m: int|
            0 <= m < s.segments().len() ==> (#[trigger] s.segments()[m]).len() <= other.len(),
        forall|m: int, j: int|
            0 <= m < s.segments().len() && 0 <= j < s.segments()[m].len() ==> (
            #[trigger] s.segments()[m][j]).partial_cmp_spec(&other[j]) == Some(Ordering::Equal),
    ensures
        s@.len() < other.len() ==> s.order(other) == Some(Ordering::Less),
        s@.len() == other.len() ==> s.order(other) == Some(Ordering::Equal),
        s@.len() > other.len() ==> s.order(other) == Some(Ordering::Greater),
{
    let parts = s.segments();
    lemma_equal_parts_decide_nothing(parts, other, count(parts));
}

/// A slice can be compared with every other one that is at least as long as
/// each of its parts.
pub proof fn law_short_parts_can_be_compared<T: PartialOrd>(parts: Seq<Seq<T>>, other: Seq<T>)
    requires
        forall|k: int| 0 <= k < parts.len() ==> (#[trigger] parts[k]).len() <= other.len(),
    ensures
        parts_fit(parts, other),
{
}

/// A slice can be compared with a shorter one that ends inside of a part, if an
/// element before that part is not equal to the one in its place.
pub proof fn law_earlier_differences_allow_a_comparison<T: Clone + PartialEq>(
    s: SegmentedSlice<T>,
    other: Seq<T>,
    k: int,
    i: int,
)
    requires
        0 <= k <= s.segments().len(),
        s.offset(k) <= other.len(),
        0 <= i < s.offset(k),
        !s@[i].eq_spec(&other[i]),
    ensures
        s.differs_within(other),
{
}

/// A slice begins with another one exactly if it is as long and the elements
/// are equal, pair by pair.
pub proof fn law_begins_with<T: PartialEq>(s: Seq<T>, front: Seq<T>)
    ensures
        begins_with(s, front) <==> front.len() <= s.len() && forall|i: int|
            0 <= i < front.len() ==> (#[trigger] front[i]).eq_spec(&s[i]),
{
    if front.len() <= s.len() {
        let head = s.take(front.len() as int);
        assert(forall|i: int| 0 <= i < front.len() ==> #[trigger] head[i] == s[i]);
        if begins_with(s, front) {
            assert forall|i: int| 0 <= i < front.len() implies (#[trigger] front[i]).eq_spec(
                &s[i],
            ) by {
                assert(front[i].eq_spec(&head[i]));
            }
        } else {
            let i = choose|i: int| 0 <= i < front.len() && !(#[trigger] front[i]).eq_spec(&head[i]);
            assert(!front[i].eq_spec(&s[i]));
        }
    }
}

/// Each part begins where the one before it ends, and the slice ends with the
/// last one.
pub proof fn law_parts_follow_each_other<T>(s: SegmentedSlice<T>, k: int)
    requires
        0 <= k < s.segments().len(),
    ensures
        s.offset(0) == 0,
        s.offset(k + 1) == s.offset(k) + s.segments()[k].len(),
        s@.len() == s.offset(s.segments().len() as int),
        s.segments()[k] == s@.subrange(s.offset(k) as int, s.offset(k + 1) as int),
{
    let parts = s.segments();
    lemma_take_flatten(parts, k);
    lemma_skip_flatten(parts, k);
    assert(parts.take(k) + parts.skip(k) =~= parts);
    vstd::seq_lib::lemma_flatten_concat(parts.take(k), parts.skip(k));
    assert(parts.take(parts.len() as int) =~= parts);
    assert(parts.take(0).flatten() =~= Seq::<T>::empty());
    assert(parts[k] =~= s@.subrange(s.offset(k) as int, s.offset(k + 1) as int));
}

/// A slice without parts is empty.
pub proof fn law_no_parts<T>(s: SegmentedSlice<T>)
    requires
        s.segments().len() == 0,
    ensures
        s@.len() == 0,
{
}

/// The parts are the slices that were given, in their order.
pub proof fn law_parts_are_the_given_slices<T>(parts: &[&[T]])
    ensures
        contents(parts).len() == parts@.len(),
        forall|i: int| 0 <= i < parts@.len() ==> #[trigger] contents(parts)[i] == parts@[i]@,
{
}

/// A copy is as long as the original, and holds clones of its elements in their
/// places.
pub proof fn law_copies_hold_clones<T: Clone>(s: Seq<T>, copy: Seq<T>)
    ensures
        (forall|x: T, y: T| #[trigger] cloned(x, y) ==> x == y) ==> clones_are_equal::<T>(),
        is_copy(s, copy) <==> copy.len() == s.len() && forall|i: int|
            0 <= i < s.len() ==> cloned(s[i], #[trigger] copy[i]),
{
}

} // verus!
