use vstd::prelude::*;
use crate::error::TreeError;
use crate::hash::{DigestKind, HashFunction};

verus! {

/// The scalars of each digest of a level, in order.
pub open spec fn level_view<K: DigestKind>(level: Seq<K::Digest>) -> Seq<Seq<K::Scalar>> {
    level.map_values(|d: K::Digest| K::scalars(d))
}

/// The contents of each buffer, in order.
pub open spec fn buffers_view<S>(buffers: Seq<Vec<S>>) -> Seq<Seq<S>> {
    buffers.map_values(|b: Vec<S>| b@)
}

/// The buffers that one round hashes: each pair of neighbours, laid end to
/// end. An unpaired last digest is in none of them.
pub open spec fn pair_inputs<S>(level: Seq<Seq<S>>) -> Seq<Seq<S>> {
    Seq::new(level.len() / 2, |k: int| level[2 * k] + level[2 * k + 1])
}

/// The level that follows `level` under `hash`: each pair of neighbours is
/// hashed end to end, and an unpaired last digest is carried over as it is.
pub open spec fn next_level<S>(hash: spec_fn(Seq<S>) -> Seq<S>, level: Seq<Seq<S>>) -> Seq<Seq<S>> {
    Seq::new(
        ((level.len() + 1) / 2) as nat,
        |k: int|
            if 2 * k + 1 < level.len() {
                hash(level[2 * k] + level[2 * k + 1])
            } else {
                level[2 * k]
            },
    )
}

/// The root of a level that is not empty: the one digest that is left when
/// the level has been halved until it has length 1.
pub open spec fn root_of<S>(hash: spec_fn(Seq<S>) -> Seq<S>, level: Seq<Seq<S>>) -> Seq<S>
    decreases level.len(),
{
    if level.len() <= 1 {
        level[0]
    } else {
        root_of(hash, next_level(hash, level))
    }
}

/// Number of rounds of hashing between a level of `len` digests and its root.
pub open spec fn rounds(len: nat) -> nat
    decreases len,
{
    if len <= 1 {
        0
    } else {
        1 + rounds((len + 1) / 2)
    }
}

/// The level that is reached from `level` after `count` rounds.
pub open spec fn level_after<S>(
    hash: spec_fn(Seq<S>) -> Seq<S>,
    level: Seq<Seq<S>>,
    count: nat,
) -> Seq<Seq<S>>
    decreases count,
{
    if count == 0 {
        level
    } else {
        level_after(hash, next_level(hash, level), (count - 1) as nat)
    }
}

/// A level of one digest is its own root, and takes no round of hashing.
pub proof fn lemma_single_level_is_root<S>(hash: spec_fn(Seq<S>) -> Seq<S>, level: Seq<Seq<S>>)
    requires
        level.len() == 1,
    ensures
        root_of(hash, level) == level[0],
        rounds(level.len()) == 0,
{
}

/// A round halves the level, rounding up. Each digest that has a neighbour
/// is replaced, together with it, by the hash of the two laid end to end.
pub proof fn lemma_round_halves<S>(hash: spec_fn(Seq<S>) -> Seq<S>, level: Seq<Seq<S>>)
    ensures
        next_level(hash, level).len() == (level.len() + 1) / 2,
        forall|k: int|
            0 <= k < level.len() / 2 ==> #[trigger] next_level(hash, level)[k] == hash(
                level[2 * k] + level[2 * k + 1],
            ),
{
}

/// The last digest of a level of odd length is the last digest of the next
/// level, as it was: it is not hashed, and it is paired with nothing.
pub proof fn lemma_odd_tail_carried<S>(hash: spec_fn(Seq<S>) -> Seq<S>, level: Seq<Seq<S>>)
    requires
        level.len() % 2 == 1,
    ensures
        next_level(hash, level).len() == (level.len() + 1) / 2,
        next_level(hash, level).last() == level.last(),
        forall|k: int|
            0 <= k < next_level(hash, level).len() - 1 ==> #[trigger] next_level(hash, level)[k]
                == hash(level[2 * k] + level[2 * k + 1]),
{
}

/// A level that is not empty reaches its root in `rounds` rounds, each of
/// which halves it, rounding up.
pub proof fn lemma_rounds_reach_root<S>(hash: spec_fn(Seq<S>) -> Seq<S>, level: Seq<Seq<S>>)
    requires
        level.len() >= 1,
    ensures
        level_after(hash, level, rounds(level.len())).len() == 1,
        level_after(hash, level, rounds(level.len()))[0] == root_of(hash, level),
    decreases level.len(),
{
    if level.len() >= 2 {
        lemma_rounds_reach_root(hash, next_level(hash, level));
    }
}

/// Levels that hold the same digests in the same order have the same root,
/// down to the last scalar.
pub proof fn lemma_root_deterministic<K: DigestKind>(
    hash: spec_fn(Seq<K::Scalar>) -> Seq<K::Scalar>,
    level_a: Seq<K::Digest>,
    level_b: Seq<K::Digest>,
    root_a: K::Digest,
    root_b: K::Digest,
)
    requires
        level_a == level_b,
        K::scalars(root_a) == root_of(hash, level_view::<K>(level_a)),
        K::scalars(root_b) == root_of(hash, level_view::<K>(level_b)),
    ensures
        root_a == root_b,
{
    K::lemma_scalars_injective(root_a, root_b);
}

/// The digests of a round, followed by the last digest of `level` if it had
/// no neighbour.
pub open spec fn with_odd_tail<D>(digests: Seq<D>, level: Seq<D>) -> Seq<D> {
    if level.len() % 2 == 1 {
        digests.push(level.last())
    } else {
        digests
    }
}

/// Where a reduction stands: still holding a level, or done with the root.
#[derive(Debug, PartialEq, Eq)]
pub enum ReducerState<D> {
    Reducing(Vec<D>),
    Done(D),
}

impl<D> ReducerState<D> {
    /// The level that is held; none once the root is known.
    pub open spec fn level(self) -> Seq<D> {
        match self {
            ReducerState::Reducing(level) => level@,
            ReducerState::Done(_) => Seq::empty(),
        }
    }

    /// Number of digests that the next transition takes.
    pub open spec fn expected(self) -> nat {
        self.level().len() / 2
    }

    /// What is left to do: it shrinks with every transition.
    pub open spec fn measure(self) -> nat {
        match self {
            ReducerState::Reducing(level) => level@.len() + 1,
            ReducerState::Done(_) => 0,
        }
    }
}

/// The root that a state leads to under `hash`, if it holds anything.
pub open spec fn state_root<K: DigestKind>(
    hash: spec_fn(Seq<K::Scalar>) -> Seq<K::Scalar>,
    state: ReducerState<K::Digest>,
) -> Seq<K::Scalar> {
    match state {
        ReducerState::Reducing(level) => root_of(hash, level_view::<K>(level@)),
        ReducerState::Done(root) => K::scalars(root),
    }
}

/// The buffers that have to be hashed before `state` can move on, in order:
/// one for each pair of neighbours of the level. None for a level of fewer
/// than two digests, and none once the root is known.
pub fn round_inputs<K: DigestKind>(state: &ReducerState<K::Digest>) -> (inputs: Vec<
    Vec<K::Scalar>,
>)
    ensures
        buffers_view(inputs@) == pair_inputs(level_view::<K>(state.level())),
        inputs@.len() == state.expected(),
        forall|k: int| 0 <= k < inputs@.len() ==> (#[trigger] inputs@[k])@.len() == 2 * K::spec_width(),
{
    let mut inputs: Vec<Vec<K::Scalar>> = Vec::new();
    match state {
        ReducerState::Done(_) => {},
        ReducerState::Reducing(level) => {
            let n = level.len();
            let pairs = n / 2;
            let mut k: usize = 0;
            while k < pairs
                invariant
                    n == level@.len(),
                    pairs == n / 2,
                    k <= pairs,
                    inputs@.len() == k,
                    forall|j: int|
                        0 <= j < k ==> (#[trigger] inputs@[j])@ == K::scalars(level@[2 * j])
                            + K::scalars(level@[2 * j + 1]),
                    forall|j: int|
                        0 <= j < k ==> (#[trigger] inputs@[j])@.len() == 2 * K::spec_width(),
                decreases pairs - k,
            {
                let mut buffer: Vec<K::Scalar> = Vec::new();
                K::absorb(&mut buffer, &level[2 * k]);
                K::absorb(&mut buffer, &level[2 * k + 1]);
                proof {
                    K::lemma_width(level@[2 * k]);
                    K::lemma_width(level@[2 * k + 1]);
                }
                inputs.push(buffer);
                k += 1;
            }
        },
    }
    assert(buffers_view(inputs@) =~= pair_inputs(level_view::<K>(state.level())));
    inputs
}

/// One transition, given the digests of the buffers of `round_inputs`, in
/// the same order. A level of one digest is done, and that digest is the
/// root; a longer level gives way to the digests, followed by its last
/// digest if its length is odd; an empty level has no root; a finished
/// state stays as it is. Digests that are not as many as the buffers were
/// are refused.
pub fn advance<D: Copy>(state: ReducerState<D>, digests: Vec<D>) -> (out: Result<
    ReducerState<D>,
    TreeError,
>)
    ensures
        match state {
            ReducerState::Done(root) => if digests@.len() == 0 {
                out == Ok::<ReducerState<D>, TreeError>(ReducerState::Done(root))
            } else {
                out == Err::<ReducerState<D>, TreeError>(TreeError::InputWidthMismatch)
            },
            ReducerState::Reducing(level) => if level@.len() == 0 {
                out == Err::<ReducerState<D>, TreeError>(TreeError::InvalidLeafCount)
            } else if digests@.len() != level@.len() / 2 {
                out == Err::<ReducerState<D>, TreeError>(TreeError::InputWidthMismatch)
            } else if level@.len() == 1 {
                out == Ok::<ReducerState<D>, TreeError>(ReducerState::Done(level@[0]))
            } else {
                &&& out matches Ok(ReducerState::Reducing(after))
                &&& after@ == with_odd_tail(digests@, level@)
            },
        },
        out matches Ok(after) ==> (state is Reducing ==> after.measure() < state.measure()),
{
    match state {
        ReducerState::Done(root) => {
            if digests.len() == 0 {
                Ok(ReducerState::Done(root))
            } else {
                Err(TreeError::InputWidthMismatch)
            }
        },
        ReducerState::Reducing(level) => {
            let n = level.len();
            if n == 0 {
                Err(TreeError::InvalidLeafCount)
            } else if digests.len() != n / 2 {
                Err(TreeError::InputWidthMismatch)
            } else if n == 1 {
                Ok(ReducerState::Done(level[0]))
            } else {
                let mut after = digests;
                if n % 2 == 1 {
                    after.push(level[n - 1]);
                }
                Ok(ReducerState::Reducing(after))
            }
        },
    }
}

/// If the digests that come back are the hashes of the buffers that went
/// out, the level that `advance` puts together is the next level.
pub proof fn lemma_round_is_next_level<K: DigestKind>(
    hash: spec_fn(Seq<K::Scalar>) -> Seq<K::Scalar>,
    level: Seq<K::Digest>,
    digests: Seq<K::Digest>,
)
    requires
        level_view::<K>(digests) == pair_inputs(level_view::<K>(level)).map_values(hash),
    ensures
        level_view::<K>(with_odd_tail(digests, level)) == next_level(
            hash,
            level_view::<K>(level),
        ),
{
    let views = level_view::<K>(level);
    let after = level_view::<K>(with_odd_tail(digests, level));
    let expected = next_level(hash, views);
    assert(digests.len() == level.len() / 2) by {
        assert(level_view::<K>(digests).len() == digests.len());
    }
    assert(after.len() == expected.len());
    assert forall|k: int| 0 <= k < after.len() implies after[k] == expected[k] by {
        if 2 * k + 1 < level.len() {
            assert(level_view::<K>(digests)[k] == K::scalars(digests[k]));
            assert(pair_inputs(views).map_values(hash)[k] == hash(pair_inputs(views)[k]));
        }
    }
    assert(after =~= expected);
}

/// A transition whose digests are the hashes of the buffers that went out
/// does not change the root that the state leads to.
pub proof fn lemma_advance_keeps_root<K: DigestKind>(
    hash: spec_fn(Seq<K::Scalar>) -> Seq<K::Scalar>,
    state: ReducerState<K::Digest>,
    digests: Seq<K::Digest>,
    after: ReducerState<K::Digest>,
)
    requires
        state.level().len() >= 1,
        level_view::<K>(digests) == pair_inputs(level_view::<K>(state.level())).map_values(hash),
        state.level().len() == 1 ==> after == ReducerState::Done(state.level()[0]),
        state.level().len() >= 2 ==> after is Reducing && after.level() == with_odd_tail(
            digests,
            state.level(),
        ),
    ensures
        state_root::<K>(hash, after) == state_root::<K>(hash, state),
{
    if state.level().len() >= 2 {
        lemma_round_is_next_level::<K>(hash, state.level(), digests);
    }
}

/// Whether `f` computes `hash`: every digest that a call of `f` can return
/// is the one that `hash` assigns to the buffer.
pub open spec fn computes<K: DigestKind, F: Fn(&Vec<K::Scalar>) -> K::Digest>(
    f: F,
    hash: spec_fn(Seq<K::Scalar>) -> Seq<K::Scalar>,
) -> bool {
    forall|input: &Vec<K::Scalar>, digest: K::Digest| #[trigger]
        call_ensures(f, (input,), digest) ==> K::scalars(digest) == hash(input@)
}

/// Whether `f` may be called on every buffer of `width` scalars.
pub open spec fn takes<K: DigestKind, F: Fn(&Vec<K::Scalar>) -> K::Digest>(f: F, width: nat) -> bool {
    forall|input: &Vec<K::Scalar>| input@.len() == width ==> #[trigger] call_requires(f, (input,))
}

/// Whether every buffer has `width` scalars.
pub open spec fn all_of_width<S>(inputs: Seq<Vec<S>>, width: nat) -> bool {
    forall|i: int| 0 <= i < inputs.len() ==> (#[trigger] inputs[i])@.len() == width
}

/// Hands every buffer to `f`, in order, and collects what comes back. `f`
/// takes buffers of one width and pads nothing: if any buffer has another
/// width, all are refused before `f` is called.
pub fn hash_all_with<K: DigestKind, F: Fn(&Vec<K::Scalar>) -> K::Digest>(
    inputs: &Vec<Vec<K::Scalar>>,
    width: usize,
    f: &F,
) -> (out: Result<Vec<K::Digest>, TreeError>)
    requires
        takes::<K, F>(*f, width as nat),
    ensures
        all_of_width(inputs@, width as nat) <==> out is Ok,
        out matches Err(e) ==> e == TreeError::InputWidthMismatch,
        out matches Ok(digests) ==> {
            &&& digests@.len() == inputs@.len()
            &&& forall|i: int|
                0 <= i < inputs@.len() ==> call_ensures(
                    *f,
                    (&inputs@[i],),
                    #[trigger] digests@[i],
                )
        },
{
    let mut checked: usize = 0;
    while checked < inputs.len()
        invariant
            checked <= inputs@.len(),
            forall|j: int| 0 <= j < checked ==> (#[trigger] inputs@[j])@.len() == width,
        decreases inputs@.len() - checked,
    {
        if inputs[checked].len() != width {
            return Err(TreeError::InputWidthMismatch);
        }
        checked += 1;
    }
    let mut digests: Vec<K::Digest> = Vec::new();
    let mut i: usize = 0;
    while i < inputs.len()
        invariant
            takes::<K, F>(*f, width as nat),
            all_of_width(inputs@, width as nat),
            i <= inputs@.len(),
            digests@.len() == i,
            forall|j: int|
                0 <= j < i ==> call_ensures(*f, (&inputs@[j],), #[trigger] digests@[j]),
        decreases inputs@.len() - i,
    {
        let digest = f(&inputs[i]);
        digests.push(digest);
        i += 1;
    }
    Ok(digests)
}

/// What `hash_all_with` returns for a function that computes `hash` is the
/// level of the hashes of the buffers.
pub proof fn lemma_computed_digests<K: DigestKind, F: Fn(&Vec<K::Scalar>) -> K::Digest>(
    f: F,
    hash: spec_fn(Seq<K::Scalar>) -> Seq<K::Scalar>,
    inputs: Seq<Vec<K::Scalar>>,
    digests: Seq<K::Digest>,
)
    requires
        computes::<K, F>(f, hash),
        digests.len() == inputs.len(),
        forall|i: int| 0 <= i < inputs.len() ==> call_ensures(f, (&inputs[i],), #[trigger] digests[i]),
    ensures
        level_view::<K>(digests) == buffers_view(inputs).map_values(hash),
{
    assert(level_view::<K>(digests) =~= buffers_view(inputs).map_values(hash)) by {
        assert forall|i: int| 0 <= i < inputs.len() implies K::scalars(digests[i]) == hash(
            inputs[i]@,
        ) by {
            assert(call_ensures(f, (&inputs[i],), digests[i]));
        }
    }
}

/// Reduces `level` to its root with a hash function that the caller hands
/// in, and that takes two digests laid end to end. A level of one digest is
/// its own root, and `f` is not called; an empty level has none. Whatever
/// function `f` computes, the root is the root under that function.
pub fn reduce_with<K: DigestKind, F: Fn(&Vec<K::Scalar>) -> K::Digest>(
    level: Vec<K::Digest>,
    f: &F,
) -> (out: Result<K::Digest, TreeError>)
    requires
        takes::<K, F>(*f, 2 * K::spec_width()),
    ensures
        level@.len() == 0 <==> out is Err,
        out matches Err(e) ==> e == TreeError::InvalidLeafCount,
        level@.len() == 1 ==> out == Ok::<K::Digest, TreeError>(level@[0]),
        forall|hash: spec_fn(Seq<K::Scalar>) -> Seq<K::Scalar>| #[trigger]
            computes::<K, F>(*f, hash) ==> (out matches Ok(root) ==> K::scalars(root) == root_of(
                hash,
                level_view::<K>(level@),
            )),
{
    if level.len() == 0 {
        return Err(TreeError::InvalidLeafCount);
    }
    let ghost first = level@;
    let mut state: ReducerState<K::Digest> = ReducerState::Reducing(level);
    let width = 2 * K::width();
    loop
        invariant
            takes::<K, F>(*f, 2 * K::spec_width()),
            width == 2 * K::spec_width(),
            first == level@,
            first.len() >= 1,
            forall|hash: spec_fn(Seq<K::Scalar>) -> Seq<K::Scalar>| #[trigger]
                computes::<K, F>(*f, hash) ==> state_root::<K>(hash, state) == root_of(
                    hash,
                    level_view::<K>(first),
                ),
            state is Reducing,
            state.level().len() >= 1,
            first.len() == 1 ==> state == ReducerState::Reducing(level),
        decreases state.measure(),
    {
        let inputs = round_inputs::<K>(&state);
        let digests = match hash_all_with::<K, F>(&inputs, width, f) {
            Ok(digests) => digests,
            Err(e) => {
                return Err(e);
            },
        };
        let ghost before = state;
        let ghost handed = digests@;
        match advance(state, digests) {
            Ok(after) => {
                proof {
                    assert forall|hash: spec_fn(Seq<K::Scalar>) -> Seq<K::Scalar>| #[trigger]
                        computes::<K, F>(*f, hash) implies state_root::<K>(hash, after)
                        == root_of(hash, level_view::<K>(first)) by {
                        lemma_computed_digests::<K, F>(*f, hash, inputs@, handed);
                        lemma_advance_keeps_root::<K>(hash, before, handed, after);
                    }
                }
                match after {
                    ReducerState::Done(root) => {
                        return Ok(root);
                    },
                    ReducerState::Reducing(held) => {
                        state = ReducerState::Reducing(held);
                    },
                }
            },
            Err(e) => {
                return Err(e);
            },
        }
    }
}

/// Hashes every buffer, in order.
pub fn hash_all<H: HashFunction>(inputs: &Vec<Vec<H::Scalar>>) -> (digests: Vec<H::Digest>)
    ensures
        digests@.len() == inputs@.len(),
        level_view::<H>(digests@) == buffers_view(inputs@).map_values(H::hasher()),
{
    let mut digests: Vec<H::Digest> = Vec::new();
    let mut i: usize = 0;
    while i < inputs.len()
        invariant
            i <= inputs@.len(),
            digests@.len() == i,
            forall|j: int|
                0 <= j < i ==> H::scalars(#[trigger] digests@[j]) == (H::hasher())(inputs@[j]@),
        decreases inputs@.len() - i,
    {
        let digest = H::hash(&inputs[i]);
        digests.push(digest);
        i += 1;
    }
    assert(level_view::<H>(digests@) =~= buffers_view(inputs@).map_values(H::hasher()));
    digests
}

/// One transition with a hash function that runs here: the buffers of the
/// round are hashed, and the state moves on with their digests.
pub fn step<H: HashFunction>(state: ReducerState<H::Digest>) -> (out: Result<
    ReducerState<H::Digest>,
    TreeError,
>)
    ensures
        match state {
            ReducerState::Done(root) => out == Ok::<ReducerState<H::Digest>, TreeError>(
                ReducerState::Done(root),
            ),
            ReducerState::Reducing(level) => if level@.len() == 0 {
                out == Err::<ReducerState<H::Digest>, TreeError>(TreeError::InvalidLeafCount)
            } else if level@.len() == 1 {
                out == Ok::<ReducerState<H::Digest>, TreeError>(ReducerState::Done(level@[0]))
            } else {
                &&& out matches Ok(ReducerState::Reducing(after))
                &&& level_view::<H>(after@) == next_level(H::hasher(), level_view::<H>(level@))
                &&& level@.len() % 2 == 1 ==> after@.last() == level@.last()
            },
        },
        out matches Ok(after) ==> state_root::<H>(H::hasher(), after) == state_root::<H>(
            H::hasher(),
            state,
        ),
        out matches Ok(after) ==> (state is Reducing ==> after.measure() < state.measure()),
{
    let inputs = round_inputs::<H>(&state);
    let digests = hash_all::<H>(&inputs);
    proof {
        lemma_round_is_next_level::<H>(H::hasher(), state.level(), digests@);
    }
    advance(state, digests)
}

/// Reduces `level` to its root with a hash function that runs here. A
/// level of one digest is its own root, and nothing is hashed; an empty
/// level has none.
pub fn reduce_to_root<H: HashFunction>(level: Vec<H::Digest>) -> (out: Result<H::Digest, TreeError>)
    ensures
        level@.len() == 0 <==> out is Err,
        out matches Err(e) ==> e == TreeError::InvalidLeafCount,
        out matches Ok(root) ==> H::scalars(root) == root_of(
            H::hasher(),
            level_view::<H>(level@),
        ),
        level@.len() == 1 ==> out == Ok::<H::Digest, TreeError>(level@[0]),
{
    let f = |input: &Vec<H::Scalar>| -> (digest: H::Digest)
        ensures
            H::scalars(digest) == (H::hasher())(input@),
        { H::hash(input) };
    assert(computes::<H, _>(f, H::hasher()));
    reduce_with::<H, _>(level, &f)
}

} // verus!
