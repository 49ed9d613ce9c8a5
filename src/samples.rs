//! Functions that fill slices with sample values for tests.
use vstd::prelude::*;

verus! {

/// Fills `target` with `value`.
pub fn fill_with_value<T: Copy>(target: &mut [T], value: T)
    ensures
        final(target)@.len() == old(target)@.len(),
        forall|i: int| 0 <= i < final(target)@.len() ==> #[trigger] final(target)@[i] == value,
{
    let n = target.len();
    let mut i: usize = 0;
    while i < n
        invariant
            n == old(target)@.len(),
            target@.len() == n,
            0 <= i <= n,
            forall|j: int| 0 <= j < i ==> #[trigger] target@[j] == value,
        decreases n - i,
    {
        target[i] = value;
        i += 1;
    }
}

/// A number type whose values can be advanced by an increment.
pub trait Increment: Copy + Sized {
    /// The mathematical value of `self`.
    spec fn value(self) -> int;

    /// Holds when `v` can be represented by the type.
    spec fn in_range(v: int) -> bool;

    /// Every value of the type is representable, and distinct values have
    /// distinct mathematical values.
    proof fn lemma_value(self, other: Self)
        ensures
            Self::in_range(self.value()),
            self.value() == other.value() ==> self == other,
    ;

    /// Returns `self + inc`, which must be representable.
    fn step_by(self, inc: Self) -> (r: Self)
        requires
            Self::in_range(self.value() + inc.value()),
        ensures
            r.value() == self.value() + inc.value(),
    ;
}

impl Increment for u8 {
    open spec fn value(self) -> int {
        self as int
    }

    open spec fn in_range(v: int) -> bool {
        u8::MIN <= v <= u8::MAX
    }

    proof fn lemma_value(self, other: u8) {
    }

    fn step_by(self, inc: u8) -> (r: u8) {
        self + inc
    }
}

impl Increment for u16 {
    open spec fn value(self) -> int {
        self as int
    }

    open spec fn in_range(v: int) -> bool {
        u16::MIN <= v <= u16::MAX
    }

    proof fn lemma_value(self, other: u16) {
    }

    fn step_by(self, inc: u16) -> (r: u16) {
        self + inc
    }
}

impl Increment for u32 {
    open spec fn value(self) -> int {
        self as int
    }

    open spec fn in_range(v: int) -> bool {
        u32::MIN <= v <= u32::MAX
    }

    proof fn lemma_value(self, other: u32) {
    }

    fn step_by(self, inc: u32) -> (r: u32) {
        self + inc
    }
}

impl Increment for u64 {
    open spec fn value(self) -> int {
        self as int
    }

    open spec fn in_range(v: int) -> bool {
        u64::MIN <= v <= u64::MAX
    }

    proof fn lemma_value(self, other: u64) {
    }

    fn step_by(self, inc: u64) -> (r: u64) {
        self + inc
    }
}

impl Increment for usize {
    open spec fn value(self) -> int {
        self as int
    }

    open spec fn in_range(v: int) -> bool {
        usize::MIN <= v <= usize::MAX
    }

    proof fn lemma_value(self, other: usize) {
    }

    fn step_by(self, inc: usize) -> (r: usize) {
        self + inc
    }
}

impl Increment for i8 {
    open spec fn value(self) -> int {
        self as int
    }

    open spec fn in_range(v: int) -> bool {
        i8::MIN <= v <= i8::MAX
    }

    proof fn lemma_value(self, other: i8) {
    }

    fn step_by(self, inc: i8) -> (r: i8) {
        self + inc
    }
}

impl Increment for i16 {
    open spec fn value(self) -> int {
        self as int
    }

    open spec fn in_range(v: int) -> bool {
        i16::MIN <= v <= i16::MAX
    }

    proof fn lemma_value(self, other: i16) {
    }

    fn step_by(self, inc: i16) -> (r: i16) {
        self + inc
    }
}

impl Increment for i32 {
    open spec fn value(self) -> int {
        self as int
    }

    open spec fn in_range(v: int) -> bool {
        i32::MIN <= v <= i32::MAX
    }

    proof fn lemma_value(self, other: i32) {
    }

    fn step_by(self, inc: i32) -> (r: i32) {
        self + inc
    }
}

impl Increment for i64 {
    open spec fn value(self) -> int {
        self as int
    }

    open spec fn in_range(v: int) -> bool {
        i64::MIN <= v <= i64::MAX
    }

    proof fn lemma_value(self, other: i64) {
    }

    fn step_by(self, inc: i64) -> (r: i64) {
        self + inc
    }
}

impl Increment for isize {
    open spec fn value(self) -> int {
        self as int
    }

    open spec fn in_range(v: int) -> bool {
        isize::MIN <= v <= isize::MAX
    }

    proof fn lemma_value(self, other: isize) {
    }

    fn step_by(self, inc: isize) -> (r: isize) {
        self + inc
    }
}

/// The element at position `i` of the arithmetic sequence that starts at
/// `initial` and grows by `inc`.
pub open spec fn seq_term(initial: int, inc: int, i: int) -> int {
    initial + i * inc
}

/// Fills `target` with the arithmetic sequence that starts at `initial` and
/// grows by `inc`. Every element must be representable.
pub fn fill_with_seq<T: Increment>(target: &mut [T], initial: T, inc: T)
    requires
        forall|i: int| 0 <= i < old(target)@.len() ==> T::in_range(#[trigger] seq_term(initial.value(), inc.value(), i)),
    ensures
        final(target)@.len() == old(target)@.len(),
        forall|i: int|
            0 <= i < final(target)@.len() ==> (#[trigger] final(target)@[i]).value() == seq_term(
                initial.value(),
                inc.value(),
                i,
            ),
{
    let n = target.len();
    let mut curr = initial;
    let mut i: usize = 0;
    while i < n
        invariant
            forall|k: int| 0 <= k < n ==> T::in_range(#[trigger] seq_term(initial.value(), inc.value(), k)),
            n == old(target)@.len(),
            target@.len() == n,
            0 <= i <= n,
            i < n ==> curr.value() == seq_term(initial.value(), inc.value(), i as int),
            forall|j: int|
                0 <= j < i ==> (#[trigger] target@[j]).value() == seq_term(initial.value(), inc.value(), j),
        decreases n - i,
    {
        target[i] = curr;
        if i + 1 < n {
            let ghost k = i as int;
            let ghost d = inc.value();
            assert((k + 1) * d == k * d + d) by (nonlinear_arith);
            assert(T::in_range(seq_term(initial.value(), inc.value(), i + 1)));
            curr = curr.step_by(inc);
        }
        i += 1;
    }
}

/// Holds when `c` is a run of `gen` from `initial`: it starts at `initial`
/// and each later element is a result `gen` can give for the one before it.
pub open spec fn is_chain<T, F: Fn(T) -> T>(gen: F, initial: T, c: Seq<T>) -> bool {
    &&& c.len() > 0
    &&& c[0] == initial
    &&& forall|i: int| 0 < i < c.len() ==> gen.ensures((c[i - 1],), #[trigger] c[i])
}

/// Fills `target` with a sequence that starts at `initial`, each later
/// element being `gen` applied to the one before it. `gen` is called only on
/// the elements that have a successor in `target`, so it need accept no other
/// value.
pub fn fill_with_seq_gen<T: Copy, F: Fn(T) -> T>(target: &mut [T], initial: T, gen: F)
    requires
        forall|c: Seq<T>|
            c.len() < old(target)@.len() && #[trigger] is_chain(gen, initial, c) ==> gen.requires(
                (c.last(),),
            ),
    ensures
        final(target)@.len() == old(target)@.len(),
        final(target)@.len() > 0 ==> is_chain(gen, initial, final(target)@),
{
    let n = target.len();
    let mut curr = initial;
    let mut i: usize = 0;
    while i < n
        invariant
            forall|c: Seq<T>|
                c.len() < n && #[trigger] is_chain(gen, initial, c) ==> gen.requires((c.last(),)),
            n == old(target)@.len(),
            target@.len() == n,
            0 <= i <= n,
            i < n ==> is_chain(gen, initial, target@.subrange(0, i as int).push(curr)),
            i == n && n > 0 ==> is_chain(gen, initial, target@),
        decreases n - i,
    {
        let ghost c = target@.subrange(0, i as int).push(curr);
        target[i] = curr;
        assert(target@.subrange(0, i + 1) == c);
        if i + 1 < n {
            assert(c.last() == curr);
            let following = gen(curr);
            proof {
                let c2 = c.push(following);
                assert(is_chain(gen, initial, c2)) by {
                    assert forall|k: int| 0 < k < c2.len() implies gen.ensures((c2[k - 1],), #[trigger] c2[k]) by {
                        if k < c.len() {
                            assert(c2[k] == c[k] && c2[k - 1] == c[k - 1]);
                        }
                    }
                }
                assert(target@.subrange(0, i + 1).push(following) == c2);
            }
            curr = following;
        } else {
            assert(target@ == target@.subrange(0, i + 1));
        }
        i += 1;
    }
}

/// Holds when drawing `values` from a generator in state `start` with `next`
/// takes it through `states`: the first state is `start`, and each draw takes
/// one state to the next and gives one value.
pub open spec fn is_run<T, G, F: Fn(&G) -> (T, G)>(next: F, start: G, states: Seq<G>, values: Seq<T>) -> bool {
    &&& states.len() == values.len() + 1
    &&& states[0] == start
    &&& forall|i: int| 0 <= i < values.len() ==> #[trigger] next.ensures((&states[i],), (values[i], states[i + 1]))
}

/// Fills `target` with the values drawn from `generator`, one after the
/// other. Each draw hands the current state to `next`, which returns the drawn
/// value and the generator's next state. The generator ends in the state that
/// the last draw returned. `next` is called once per element, and only on the
/// states that those draws reach.
pub fn fill_with_generator<T: Copy, G, F: Fn(&G) -> (T, G)>(target: &mut [T], generator: &mut G, next: F)
    requires
        forall|states: Seq<G>, values: Seq<T>|
            values.len() < old(target)@.len() && #[trigger] is_run(next, *old(generator), states, values)
                ==> next.requires((&states.last(),)),
    ensures
        final(target)@.len() == old(target)@.len(),
        exists|states: Seq<G>|
            #[trigger] is_run(next, *old(generator), states, final(target)@) && states.last() == *final(generator),
{
    let n = target.len();
    let ghost start = *generator;
    let ghost mut states: Seq<G> = seq![*generator];
    let mut i: usize = 0;
    while i < n
        invariant
            forall|states: Seq<G>, values: Seq<T>|
                values.len() < n && #[trigger] is_run(next, start, states, values) ==> next.requires(
                    (&states.last(),),
                ),
            start == *old(generator),
            n == old(target)@.len(),
            target@.len() == n,
            0 <= i <= n,
            is_run(next, start, states, target@.subrange(0, i as int)),
            states.last() == *generator,
        decreases n - i,
    {
        assert(next.requires((&states.last(),)));
        let (v, following) = next(generator);
        let ghost filled = target@.subrange(0, i as int);
        let ghost prev_states = states;
        target[i] = v;
        *generator = following;
        proof {
            states = states.push(*generator);
            let done = target@.subrange(0, i + 1);
            assert(done == filled.push(v));
            assert forall|j: int| 0 <= j < done.len() implies #[trigger] next.ensures(
                (&states[j],),
                (done[j], states[j + 1]),
            ) by {
                if j < i {
                    assert(filled[j] == done[j]);
                    assert(prev_states[j] == states[j] && prev_states[j + 1] == states[j + 1]);
                    assert(next.ensures((&prev_states[j],), (filled[j], prev_states[j + 1])));
                }
            }
            assert(is_run(next, start, states, done));
        }
        i += 1;
    }
    assert(target@.subrange(0, n as int) == target@);
}

} // verus!
