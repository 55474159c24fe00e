use cerberus::errors::CerberusError;
use cerberus::events::Claimed;
use cerberus::instructions::claim::settle_claim;
use cerberus::instructions::{
    add_root, claim, initialize_distributor, AddRoot, Claim, InitializeDistributor,
};
use cerberus::pubkey::Pubkey;
use cerberus::states::{ClaimBitmap, MerkleDistributor};
use cerberus::transfer::TokenTransfer;

const LEAF_1: [u8; 32] = [
    230, 84, 217, 243, 131, 92, 224, 111, 106, 196, 26, 26, 117, 158, 93, 161, 36, 231, 252, 154,
    179, 35, 145, 195, 67, 68, 6, 208, 62, 79, 11, 187,
];

const LEAF_0: [u8; 32] = [
    181, 117, 235, 127, 159, 29, 169, 237, 70, 152, 16, 123, 42, 233, 8, 69, 9, 28, 132, 161, 67,
    12, 34, 34, 64, 244, 113, 166, 227, 127, 183, 65,
];

const NODE_01: [u8; 32] = [
    15, 60, 242, 22, 133, 125, 193, 228, 71, 162, 139, 247, 141, 116, 159, 196, 237, 179, 174, 81,
    149, 22, 55, 212, 82, 42, 67, 37, 147, 15, 115, 236,
];

const NODE_23: [u8; 32] = [
    168, 75, 52, 85, 113, 24, 120, 21, 162, 80, 88, 21, 57, 55, 150, 186, 114, 199, 78, 31, 54,
    210, 198, 159, 199, 113, 120, 79, 92, 192, 113, 126,
];

const ROOT: [u8; 32] = [
    70, 91, 45, 64, 194, 169, 156, 69, 14, 158, 121, 89, 95, 140, 43, 215, 193, 84, 7, 227, 7, 53,
    234, 166, 195, 208, 203, 144, 88, 184, 94, 135,
];

fn key(tag: u8) -> Pubkey {
    Pubkey::new_from_array([tag; 32])
}

fn alice() -> Pubkey {
    key(1)
}

fn bob() -> Pubkey {
    key(2)
}

fn admin() -> Pubkey {
    key(50)
}

fn vault() -> Pubkey {
    key(60)
}

fn distributor_key() -> Pubkey {
    key(70)
}

fn alice_proof() -> Vec<[u8; 32]> {
    vec![LEAF_1, NODE_23]
}

fn bob_proof() -> Vec<[u8; 32]> {
    vec![LEAF_0, NODE_23]
}

fn claim_ctx(roots: Vec<[u8; 32]>, claimer: Pubkey) -> Claim {
    Claim {
        distributor_key: distributor_key(),
        distributor: MerkleDistributor {
            authority: admin(),
            roots,
            vault: vault(),
            bitmap_account: key(80),
            bump: 253,
        },
        bitmap: ClaimBitmap::new(),
        vault: vault(),
        user_token_account: key(90),
        claimer,
    }
}

fn paid(amount: u64) -> TokenTransfer {
    TokenTransfer {
        from: vault(),
        to: key(90),
        authority: distributor_key(),
        bump: 253,
        amount,
    }
}

#[test]
fn claim_scenario_alice_claims_once() {
    let mut init = InitializeDistributor {
        distributor_key: distributor_key(),
        distributor: MerkleDistributor {
            authority: key(0),
            roots: Vec::new(),
            vault: key(0),
            bitmap_account: key(0),
            bump: 0,
        },
        distributor_bump: 253,
        bitmap_key: key(80),
        bitmap: ClaimBitmap::new(),
        vault: vault(),
        authority: admin(),
    };
    initialize_distributor(&mut init, ROOT, 10);
    let mut ctx = Claim {
        distributor_key: init.distributor_key,
        distributor: init.distributor,
        bitmap: init.bitmap,
        vault: vault(),
        user_token_account: key(90),
        claimer: alice(),
    };
    assert!(!ctx.bitmap.is_claimed(0));
    let first = claim(&mut ctx, 0, 0, 100, alice_proof(), 11);
    assert_eq!(
        first,
        Ok((
            paid(100),
            Claimed {
                distributor: distributor_key(),
                claimer: alice(),
                root_index: 0,
                leaf_index: 0,
                amount: 100,
                timestamp: 11,
            }
        ))
    );
    assert!(ctx.bitmap.is_claimed(0));
    assert_eq!(ctx.bitmap.claimed, vec![1u8]);
    let after_first = ctx.clone();
    assert_eq!(claim(&mut ctx, 0, 0, 100, alice_proof(), 12), Err(CerberusError::AlreadyClaimed));
    assert_eq!(ctx, after_first);
}

#[test]
fn claim_with_another_amount_is_an_invalid_proof() {
    let mut ctx = claim_ctx(vec![ROOT], alice());
    let before = ctx.clone();
    assert_eq!(claim(&mut ctx, 0, 0, 101, alice_proof(), 11), Err(CerberusError::InvalidProof));
    assert_eq!(ctx, before);
    assert!(!ctx.bitmap.is_claimed(0));
    assert!(claim(&mut ctx, 0, 0, 100, alice_proof(), 11).is_ok());
}

#[test]
fn claim_by_another_caller_is_an_invalid_proof() {
    let mut ctx = claim_ctx(vec![ROOT], bob());
    assert_eq!(claim(&mut ctx, 0, 0, 100, alice_proof(), 11), Err(CerberusError::InvalidProof));
    assert_eq!(claim(&mut ctx, 0, 1, 200, alice_proof(), 11), Err(CerberusError::InvalidProof));
    assert!(ctx.bitmap.claimed.is_empty());
    let paid_out = claim(&mut ctx, 0, 1, 200, bob_proof(), 11).unwrap();
    assert_eq!(paid_out.0.amount, 200);
    assert_eq!(paid_out.1.claimer, bob());
    assert_eq!(paid_out.1.leaf_index, 1);
    assert_eq!(ctx.bitmap.claimed, vec![2u8]);
}

#[test]
fn no_double_payment_whatever_comes_with_the_second_claim() {
    let mut ctx = claim_ctx(vec![ROOT, NODE_01], alice());
    let first = claim(&mut ctx, 0, 5, 100, alice_proof(), 1).unwrap();
    assert_eq!(first.0, paid(100));
    let marked = ctx.clone();
    for root_index in 0..2u8 {
        for amount in [100u64, 101, 0, u64::MAX] {
            for proof in [alice_proof(), bob_proof(), Vec::new(), vec![LEAF_1]] {
                assert_eq!(
                    claim(&mut ctx, root_index, 5, amount, proof, 2),
                    Err(CerberusError::AlreadyClaimed)
                );
                assert_eq!(ctx, marked);
            }
        }
    }
    assert_eq!(claim(&mut ctx, 1, 5, 100, vec![LEAF_1], 2), Err(CerberusError::AlreadyClaimed));
}

#[test]
fn no_double_payment_after_other_claims() {
    let mut ctx = claim_ctx(vec![ROOT], alice());
    assert!(claim(&mut ctx, 0, 0, 100, alice_proof(), 1).is_ok());
    ctx.claimer = bob();
    assert!(claim(&mut ctx, 0, 1, 200, bob_proof(), 2).is_ok());
    assert!(claim(&mut ctx, 0, 300, 200, bob_proof(), 3).is_ok());
    ctx.claimer = alice();
    assert_eq!(claim(&mut ctx, 0, 0, 100, alice_proof(), 4), Err(CerberusError::AlreadyClaimed));
    ctx.claimer = bob();
    assert_eq!(claim(&mut ctx, 0, 0, 200, bob_proof(), 4), Err(CerberusError::AlreadyClaimed));
    assert_eq!(claim(&mut ctx, 0, 1, 200, bob_proof(), 4), Err(CerberusError::AlreadyClaimed));
    assert_eq!(claim(&mut ctx, 0, 300, 200, bob_proof(), 4), Err(CerberusError::AlreadyClaimed));
    assert!(ctx.bitmap.is_claimed(0) && ctx.bitmap.is_claimed(1) && ctx.bitmap.is_claimed(300));
}

#[test]
fn claim_slots_are_shared_between_roots() {
    let mut ctx = claim_ctx(vec![ROOT, NODE_01], alice());
    assert!(claim(&mut ctx, 1, 0, 100, vec![LEAF_1], 1).is_ok());
    assert_eq!(claim(&mut ctx, 0, 0, 100, alice_proof(), 2), Err(CerberusError::AlreadyClaimed));
}

#[test]
fn claim_against_a_root_that_was_added_later() {
    let mut adding = AddRoot {
        distributor_key: distributor_key(),
        distributor: claim_ctx(vec![[9u8; 32]], alice()).distributor,
        authority: admin(),
    };
    assert_eq!(add_root(&mut adding, ROOT, 3).unwrap().root_index, 1);
    let mut ctx = claim_ctx(Vec::new(), alice());
    ctx.distributor = adding.distributor;
    assert_eq!(claim(&mut ctx, 0, 0, 100, alice_proof(), 4), Err(CerberusError::InvalidProof));
    let accepted = claim(&mut ctx, 1, 0, 100, alice_proof(), 4).unwrap();
    assert_eq!(accepted.1.root_index, 1);
    assert_eq!(accepted.0.amount, 100);
}

#[test]
fn claim_with_an_unknown_root_index() {
    let mut ctx = claim_ctx(vec![ROOT], alice());
    let before = ctx.clone();
    assert_eq!(claim(&mut ctx, 1, 0, 100, alice_proof(), 1), Err(CerberusError::InvalidRootIndex));
    assert_eq!(
        claim(&mut ctx, 255, 0, 100, alice_proof(), 1),
        Err(CerberusError::InvalidRootIndex)
    );
    assert_eq!(ctx, before);
    let mut empty = claim_ctx(Vec::new(), alice());
    assert_eq!(
        claim(&mut empty, 0, 0, 100, alice_proof(), 1),
        Err(CerberusError::InvalidRootIndex)
    );
}

#[test]
fn claim_with_the_wrong_vault() {
    let mut ctx = claim_ctx(vec![ROOT], alice());
    ctx.vault = key(61);
    let before = ctx.clone();
    assert_eq!(claim(&mut ctx, 0, 0, 100, alice_proof(), 1), Err(CerberusError::VaultMismatch));
    assert_eq!(claim(&mut ctx, 9, 0, 100, alice_proof(), 1), Err(CerberusError::VaultMismatch));
    assert_eq!(ctx, before);
}

#[test]
fn claim_checks_run_in_order() {
    let mut ctx = claim_ctx(vec![ROOT], alice());
    assert!(claim(&mut ctx, 0, 0, 100, alice_proof(), 1).is_ok());
    assert_eq!(claim(&mut ctx, 1, 0, 100, Vec::new(), 1), Err(CerberusError::InvalidRootIndex));
    assert_eq!(claim(&mut ctx, 0, 0, 100, Vec::new(), 1), Err(CerberusError::AlreadyClaimed));
    assert_eq!(claim(&mut ctx, 0, 1, 100, Vec::new(), 1), Err(CerberusError::InvalidProof));
}

#[test]
fn claim_with_an_empty_proof_against_a_single_leaf_tree() {
    let mut ctx = claim_ctx(vec![LEAF_0], alice());
    let accepted = claim(&mut ctx, 0, 77, 100, Vec::new(), 1).unwrap();
    assert_eq!(accepted.0, paid(100));
    assert_eq!(accepted.1.leaf_index, 77);
    assert!(ctx.bitmap.is_claimed(77));
    assert_eq!(ctx.bitmap.claimed.len(), 10);
}

#[test]
fn claim_leaves_the_distributor_alone() {
    let mut ctx = claim_ctx(vec![ROOT], alice());
    let before = ctx.clone();
    assert!(claim(&mut ctx, 0, 0, 100, alice_proof(), 1).is_ok());
    assert_eq!(ctx.distributor, before.distributor);
    assert_eq!(ctx.distributor_key, before.distributor_key);
    assert_eq!(ctx.vault, before.vault);
    assert_eq!(ctx.user_token_account, before.user_token_account);
    assert_eq!(ctx.claimer, before.claimer);
}

#[test]
fn settle_claim_follows_the_finding() {
    let mut ctx = claim_ctx(vec![ROOT], alice());
    let before = ctx.clone();
    assert_eq!(settle_claim(&mut ctx, 0, 4, 100, false, 1), Err(CerberusError::InvalidProof));
    assert_eq!(ctx, before);
    assert_eq!(
        settle_claim(&mut ctx, 0, 4, 100, true, 1),
        Ok((
            paid(100),
            Claimed {
                distributor: distributor_key(),
                claimer: alice(),
                root_index: 0,
                leaf_index: 4,
                amount: 100,
                timestamp: 1,
            }
        ))
    );
    assert_eq!(ctx.bitmap.claimed, vec![16u8]);
    assert_eq!(settle_claim(&mut ctx, 0, 4, 100, true, 1), Err(CerberusError::AlreadyClaimed));
    assert_eq!(settle_claim(&mut ctx, 3, 4, 100, true, 1), Err(CerberusError::InvalidRootIndex));
    ctx.vault = key(61);
    assert_eq!(settle_claim(&mut ctx, 0, 5, 100, true, 1), Err(CerberusError::VaultMismatch));
    assert_eq!(ctx.bitmap.claimed, vec![16u8]);
}

#[test]
fn transfer_is_signed_with_seed_and_bump() {
    let mut ctx = claim_ctx(vec![ROOT], alice());
    let (transfer, _) = claim(&mut ctx, 0, 0, 100, alice_proof(), 1).unwrap();
    assert_eq!(transfer.signer_seeds(), vec!["distributor".as_bytes().to_vec(), vec![253u8]]);
}
