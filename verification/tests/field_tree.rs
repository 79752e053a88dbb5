use hash_tree::error::TreeError;
use hash_tree::hash::FieldHash;
use hash_tree::poseidon::{
    BareNode, PoseidonNode, BARE_PAIR_WIDTH, DIGEST_PAIR_WIDTH, LEAF_WIDTH,
};
use hash_tree::reducer::{advance, hash_all_with, reduce_with, round_inputs, ReducerState};
use std::cell::RefCell;

/// A stand-in for the field hash: it mixes every element and the length
/// into four words.
fn mix(input: &Vec<u64>) -> [u64; 4] {
    let mut out = [input.len() as u64, 0x9e37_79b9, 0x7f4a_7c15, 0x1234_5678];
    for (i, x) in input.iter().enumerate() {
        let slot = i % 4;
        out[slot] = out[slot].wrapping_mul(0x100_0000_01b3).wrapping_add(*x).rotate_left(13)
            ^ (i as u64);
    }
    out
}

fn join(left: &[u64; 4], right: &[u64; 4]) -> Vec<u64> {
    let mut buffer = left.to_vec();
    buffer.extend_from_slice(right);
    buffer
}

fn leaf_buffer(position: u64) -> Vec<u64> {
    vec![
        42, position, position, position, position, position, position, position, position,
        position,
    ]
}

#[test]
fn poseidon_leaves_hold_position_and_identifier() {
    let leaves = PoseidonNode::generate_leaves(8);
    assert_eq!(leaves.len(), 8);
    for (i, leaf) in leaves.iter().enumerate() {
        assert_eq!(leaf.identifier, 42);
        assert_eq!(leaf.value, i as u64);
        assert_eq!(leaf.left_node, [i as u64; 4]);
        assert_eq!(leaf.right_node, [i as u64; 4]);
    }
    assert!(PoseidonNode::generate_leaves(0).is_empty());
}

#[test]
fn poseidon_leaf_value_does_not_wrap() {
    let leaves = PoseidonNode::generate_leaves(300);
    assert_eq!(leaves[299].value, 299);
    assert_eq!(leaves[299].left_node, [299u64; 4]);
}

#[test]
fn bare_leaves_hold_position_and_identifier() {
    let leaves = BareNode::generate_leaves(5);
    assert_eq!(leaves.len(), 5);
    for (i, leaf) in leaves.iter().enumerate() {
        assert_eq!(*leaf, BareNode { identifier: 42, value: i as u64 });
    }
}

#[test]
fn poseidon_leaf_is_encoded_in_ten_elements() {
    let leaf = PoseidonNode {
        identifier: 1,
        value: 2,
        left_node: [3, 4, 5, 6],
        right_node: [7, 8, 9, 10],
    };
    assert_eq!(leaf.encode(), vec![1, 2, 3, 4, 5, 6, 7, 8, 9, 10]);
    assert_eq!(LEAF_WIDTH, 10);
    assert_eq!(PoseidonNode::generate_leaves(4)[3].encode(), leaf_buffer(3));
}

#[test]
fn poseidon_leaf_inputs_are_one_for_each_leaf() {
    let leaves = PoseidonNode::generate_leaves(6);
    let inputs = PoseidonNode::leaf_inputs(&leaves).unwrap();
    assert_eq!(inputs.len(), 6);
    for (i, input) in inputs.iter().enumerate() {
        assert_eq!(*input, leaf_buffer(i as u64));
    }
    assert_eq!(PoseidonNode::leaf_inputs(&Vec::new()), Ok(Vec::new()));
}

#[test]
fn bare_pair_leaves_out_the_left_value() {
    let left = BareNode { identifier: 1, value: 2 };
    let right = BareNode { identifier: 3, value: 4 };
    assert_eq!(BareNode::encode_pair(&left, &right), vec![1, 4, 3, 4]);
    assert_eq!(BARE_PAIR_WIDTH, 4);
}

#[test]
fn bare_pair_inputs_are_one_for_each_two_leaves() {
    let leaves = BareNode::generate_leaves(6);
    let inputs = BareNode::pair_inputs(&leaves).unwrap();
    assert_eq!(inputs, vec![vec![42, 1, 42, 1], vec![42, 3, 42, 3], vec![42, 5, 42, 5]]);
    assert_eq!(BareNode::pair_inputs(&Vec::new()), Ok(Vec::new()));
}

#[test]
fn first_level_lengths_follow_the_shape() {
    for n in [0usize, 2, 4, 6, 20] {
        let per_leaf = PoseidonNode::first_level(&PoseidonNode::generate_leaves(n), &mix).unwrap();
        assert_eq!(per_leaf.len(), n);
        let pairwise = BareNode::first_level(&BareNode::generate_leaves(n), &mix).unwrap();
        assert_eq!(pairwise.len(), n / 2);
    }
}

#[test]
fn bare_two_leaves_need_no_round() {
    let calls = RefCell::new(Vec::new());
    let counted = |input: &Vec<u64>| {
        calls.borrow_mut().push(input.clone());
        mix(input)
    };
    let leaves = BareNode::generate_leaves(2);
    let level = BareNode::first_level(&leaves, &counted).unwrap();
    assert_eq!(level, vec![mix(&vec![42, 1, 42, 1])]);
    assert_eq!(calls.borrow().len(), 1);

    let root = BareNode::generate_tree(leaves, &counted).unwrap();
    assert_eq!(root, level[0]);
    // One more call for the first level of the second run, none for reducing.
    assert_eq!(calls.borrow().len(), 2);
    assert_eq!(*calls.borrow(), vec![vec![42, 1, 42, 1], vec![42, 1, 42, 1]]);
}

#[test]
fn poseidon_four_leaves_take_two_rounds() {
    let calls = RefCell::new(0usize);
    let counted = |input: &Vec<u64>| {
        *calls.borrow_mut() += 1;
        mix(input)
    };
    let d: Vec<[u64; 4]> = (0..4).map(|i| mix(&leaf_buffer(i))).collect();
    let left = mix(&join(&d[0], &d[1]));
    let right = mix(&join(&d[2], &d[3]));
    let expected = mix(&join(&left, &right));
    let root = PoseidonNode::generate_tree(PoseidonNode::generate_leaves(4), &counted);
    assert_eq!(root, Ok(expected));
    assert_eq!(*calls.borrow(), 4 + 2 + 1);
}

#[test]
fn poseidon_six_leaves_carry_the_odd_tail() {
    let leaves = PoseidonNode::generate_leaves(6);
    let first = PoseidonNode::first_level(&leaves, &mix).unwrap();
    assert_eq!(first.len(), 6);

    let state = ReducerState::Reducing(first.clone());
    let inputs = round_inputs::<FieldHash>(&state);
    assert_eq!(inputs.len(), 3);
    let round1 = match advance(state, hash_all_with::<FieldHash, _>(&inputs, 8, &mix).unwrap()).unwrap() {
        ReducerState::Reducing(level) => level,
        ReducerState::Done(_) => panic!("done after one round"),
    };
    assert_eq!(round1.len(), 3);
    assert_eq!(round1[2], mix(&join(&first[4], &first[5])));

    let state = ReducerState::Reducing(round1.clone());
    let inputs = round_inputs::<FieldHash>(&state);
    assert_eq!(inputs, vec![join(&round1[0], &round1[1])]);
    let round2 = match advance(state, hash_all_with::<FieldHash, _>(&inputs, 8, &mix).unwrap()).unwrap() {
        ReducerState::Reducing(level) => level,
        ReducerState::Done(_) => panic!("done after two rounds"),
    };
    assert_eq!(round2, vec![mix(&join(&round1[0], &round1[1])), round1[2]]);

    let state = ReducerState::Reducing(round2.clone());
    let inputs = round_inputs::<FieldHash>(&state);
    let round3 = match advance(state, hash_all_with::<FieldHash, _>(&inputs, 8, &mix).unwrap()).unwrap() {
        ReducerState::Reducing(level) => level,
        ReducerState::Done(_) => panic!("done before the level was looked at"),
    };
    let expected = mix(&join(&round2[0], &round2[1]));
    assert_eq!(round3, vec![expected]);

    let state = ReducerState::Reducing(round3);
    assert!(round_inputs::<FieldHash>(&state).is_empty());
    assert_eq!(advance(state, Vec::new()), Ok(ReducerState::Done(expected)));
    assert_eq!(PoseidonNode::generate_tree(leaves, &mix), Ok(expected));
}

#[test]
fn odd_leaf_count_is_refused_before_hashing() {
    let calls = RefCell::new(0usize);
    let counted = |input: &Vec<u64>| {
        *calls.borrow_mut() += 1;
        mix(input)
    };
    for n in [1usize, 3, 7] {
        let leaves = PoseidonNode::generate_leaves(n);
        assert_eq!(PoseidonNode::leaf_inputs(&leaves), Err(TreeError::InvalidLeafCount));
        assert_eq!(PoseidonNode::first_level(&leaves, &counted), Err(TreeError::InvalidLeafCount));
        assert_eq!(PoseidonNode::generate_tree(leaves, &counted), Err(TreeError::InvalidLeafCount));
        let bare = BareNode::generate_leaves(n);
        assert_eq!(BareNode::pair_inputs(&bare), Err(TreeError::InvalidLeafCount));
        assert_eq!(BareNode::first_level(&bare, &counted), Err(TreeError::InvalidLeafCount));
        assert_eq!(BareNode::generate_tree(bare, &counted), Err(TreeError::InvalidLeafCount));
    }
    assert_eq!(*calls.borrow(), 0);
}

#[test]
fn no_leaves_have_no_root() {
    assert_eq!(
        PoseidonNode::first_level(&PoseidonNode::generate_leaves(0), &mix),
        Ok(Vec::new())
    );
    assert_eq!(
        PoseidonNode::generate_tree(PoseidonNode::generate_leaves(0), &mix),
        Err(TreeError::InvalidLeafCount)
    );
    assert_eq!(
        BareNode::generate_tree(BareNode::generate_leaves(0), &mix),
        Err(TreeError::InvalidLeafCount)
    );
}

#[test]
fn field_level_of_one_is_its_own_root() {
    let calls = RefCell::new(0usize);
    let counted = |input: &Vec<u64>| {
        *calls.borrow_mut() += 1;
        mix(input)
    };
    let digest = [5u64, 6, 7, 8];
    assert_eq!(reduce_with::<FieldHash, _>(vec![digest], &counted), Ok(digest));
    assert_eq!(*calls.borrow(), 0);
    assert_eq!(reduce_with::<FieldHash, _>(Vec::new(), &counted), Err(TreeError::InvalidLeafCount));
}

#[test]
fn field_level_of_three_carries_the_last() {
    let level = vec![[1u64; 4], [2; 4], [3; 4]];
    let state = ReducerState::Reducing(level.clone());
    let inputs = round_inputs::<FieldHash>(&state);
    assert_eq!(inputs, vec![vec![1, 1, 1, 1, 2, 2, 2, 2]]);
    let fresh = mix(&inputs[0]);
    assert_eq!(advance(state, vec![fresh]), Ok(ReducerState::Reducing(vec![fresh, [3; 4]])));
    assert_eq!(
        reduce_with::<FieldHash, _>(level, &mix),
        Ok(mix(&join(&fresh, &[3; 4])))
    );
}

#[test]
fn round_buffers_hold_two_digests_each() {
    let level: Vec<[u64; 4]> = (0u64..7).map(|i| [i, i + 1, i + 2, i + 3]).collect();
    let inputs = round_inputs::<FieldHash>(&ReducerState::Reducing(level.clone()));
    assert_eq!(inputs.len(), 3);
    for (k, input) in inputs.iter().enumerate() {
        assert_eq!(input.len(), 8);
        assert_eq!(*input, join(&level[2 * k], &level[2 * k + 1]));
    }
    assert!(round_inputs::<FieldHash>(&ReducerState::Done([0u64; 4])).is_empty());
}

#[test]
fn digests_that_do_not_answer_the_round_are_refused() {
    let level = vec![[1u64; 4], [2; 4], [3; 4], [4; 4]];
    assert_eq!(
        advance(ReducerState::Reducing(level.clone()), vec![[9u64; 4]]),
        Err(TreeError::InputWidthMismatch)
    );
    assert_eq!(
        advance(ReducerState::Reducing(level), vec![[9u64; 4]; 3]),
        Err(TreeError::InputWidthMismatch)
    );
    assert_eq!(
        advance(ReducerState::Reducing(vec![[1u64; 4]]), vec![[9u64; 4]]),
        Err(TreeError::InputWidthMismatch)
    );
    assert_eq!(
        advance(ReducerState::Done([1u64; 4]), vec![[9u64; 4]]),
        Err(TreeError::InputWidthMismatch)
    );
    assert_eq!(
        advance(ReducerState::Done([1u64; 4]), Vec::new()),
        Ok(ReducerState::Done([1u64; 4]))
    );
    assert_eq!(
        advance(ReducerState::<[u64; 4]>::Reducing(Vec::new()), Vec::new()),
        Err(TreeError::InvalidLeafCount)
    );
}

#[test]
fn field_root_is_the_same_every_time() {
    for n in [2usize, 4, 6, 14, 186] {
        let first = PoseidonNode::generate_tree(PoseidonNode::generate_leaves(n), &mix);
        let second = PoseidonNode::generate_tree(PoseidonNode::generate_leaves(n), &mix);
        assert!(first.is_ok());
        assert_eq!(first, second);
        let bare = BareNode::generate_tree(BareNode::generate_leaves(n), &mix);
        assert!(bare.is_ok());
        assert_eq!(bare, BareNode::generate_tree(BareNode::generate_leaves(n), &mix));
        assert_ne!(first, bare);
    }
}

#[test]
fn rounds_may_be_answered_in_any_order_of_work() {
    let level: Vec<[u64; 4]> = (0u64..6).map(|i| [i; 4]).collect();
    let state = ReducerState::Reducing(level.clone());
    let inputs = round_inputs::<FieldHash>(&state);
    // The buffers are hashed last to first; the digests go back in the order
    // of the buffers.
    let mut digests = vec![[0u64; 4]; inputs.len()];
    for k in (0..inputs.len()).rev() {
        digests[k] = mix(&inputs[k]);
    }
    let forward = hash_all_with::<FieldHash, _>(&inputs, 8, &mix).unwrap();
    assert_eq!(digests, forward);
    assert_eq!(advance(state, digests), Ok(ReducerState::Reducing(forward)));
}

#[test]
fn buffers_of_another_width_are_refused_before_hashing() {
    let calls = RefCell::new(0usize);
    let counted = |input: &Vec<u64>| {
        *calls.borrow_mut() += 1;
        mix(input)
    };
    let inputs = vec![vec![1u64; 8], vec![2; 8], vec![3; 7]];
    assert_eq!(
        hash_all_with::<FieldHash, _>(&inputs, DIGEST_PAIR_WIDTH, &counted),
        Err(TreeError::InputWidthMismatch)
    );
    assert_eq!(
        hash_all_with::<FieldHash, _>(&vec![vec![1u64; 10]], BARE_PAIR_WIDTH, &counted),
        Err(TreeError::InputWidthMismatch)
    );
    assert_eq!(*calls.borrow(), 0);
    assert_eq!(
        hash_all_with::<FieldHash, _>(&inputs[..2].to_vec(), DIGEST_PAIR_WIDTH, &counted),
        Ok(vec![mix(&vec![1u64; 8]), mix(&vec![2u64; 8])])
    );
    assert_eq!(*calls.borrow(), 2);
    assert_eq!(hash_all_with::<FieldHash, _>(&Vec::new(), LEAF_WIDTH, &counted), Ok(Vec::new()));
}

#[test]
fn encoders_give_the_widths_that_the_hash_is_called_with() {
    let widths = RefCell::new(Vec::new());
    let seen = |input: &Vec<u64>| {
        widths.borrow_mut().push(input.len());
        mix(input)
    };
    assert!(PoseidonNode::generate_tree(PoseidonNode::generate_leaves(4), &seen).is_ok());
    assert_eq!(*widths.borrow(), vec![10, 10, 10, 10, 8, 8, 8]);
    widths.borrow_mut().clear();
    assert!(BareNode::generate_tree(BareNode::generate_leaves(6), &seen).is_ok());
    assert_eq!(*widths.borrow(), vec![4, 4, 4, 8, 8]);
}
