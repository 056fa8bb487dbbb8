use professional_networking::address::Address;
use professional_networking::bridge::{
    assemble_issuance, issuance_calls, AccountRef, BridgeCall, BridgeRun, ProgramCall, Role,
    SigningAuthority,
    CREDENTIAL_DECIMALS, CREDENTIAL_UNITS, HOLDING_SPACE, MINT_SPACE,
};
use solana_program::instruction::{AccountMeta, Instruction};
use solana_program::program_pack::Pack;
use solana_program::pubkey::Pubkey;

fn party(tag: u8) -> Address {
    let mut bytes = [tag; 32];
    bytes[31] = 1;
    Address::new(bytes)
}

fn pubkey(address: &Address) -> Pubkey {
    Pubkey::new_from_array(address.to_bytes())
}

fn steps(user: &Address, mint: &Address, holding: &Address, mint_rent: u64, holding_rent: u64) -> Vec<BridgeCall> {
    let authority = SigningAuthority::derive(user);
    issuance_calls(authority, mint, holding, mint_rent, holding_rent).calls
}

fn as_instruction(call: &ProgramCall) -> Instruction {
    Instruction {
        program_id: pubkey(&call.program),
        accounts: call
            .accounts
            .iter()
            .map(|a| AccountMeta {
                pubkey: pubkey(&a.key),
                is_signer: a.is_signer,
                is_writable: a.is_writable,
            })
            .collect(),
        data: call.data.clone(),
    }
}

#[test]
fn sizes_are_those_of_the_token_program() {
    assert_eq!(MINT_SPACE as usize, spl_token::state::Mint::LEN);
    assert_eq!(HOLDING_SPACE as usize, spl_token::state::Account::LEN);
    assert_eq!(CREDENTIAL_DECIMALS, 0);
    assert_eq!(CREDENTIAL_UNITS, 1);
}

#[test]
fn issuance_has_five_steps_in_order() {
    let (user, mint, holding) = (party(1), party(2), party(3));
    let calls = steps(&user, &mint, &holding, 1_461_600, 2_039_280);
    assert_eq!(calls.len(), 5);
    let token = spl_token::id();
    let expected = vec![
        solana_program::system_instruction::create_account(
            &pubkey(&user),
            &pubkey(&mint),
            1_461_600,
            82,
            &token,
        ),
        spl_token::instruction::initialize_mint(&token, &pubkey(&mint), &pubkey(&user), None, 0)
            .unwrap(),
        solana_program::system_instruction::create_account(
            &pubkey(&user),
            &pubkey(&holding),
            2_039_280,
            165,
            &token,
        ),
        spl_token::instruction::initialize_account(
            &token,
            &pubkey(&holding),
            &pubkey(&mint),
            &pubkey(&user),
        )
        .unwrap(),
        spl_token::instruction::mint_to(
            &token,
            &pubkey(&mint),
            &pubkey(&holding),
            &pubkey(&user),
            &[],
            1,
        )
        .unwrap(),
    ];
    for (ours, theirs) in calls.iter().zip(expected.iter()) {
        assert_eq!(&as_instruction(&ours.call), theirs);
    }
}

#[test]
fn issuance_names_the_accounts_of_each_step() {
    let calls = steps(&party(1), &party(2), &party(3), 10, 20);
    assert_eq!(calls[0].accounts, vec![Role::User, Role::Mint, Role::SystemProgram]);
    assert_eq!(calls[1].accounts, vec![Role::Mint, Role::RentSysvar, Role::TokenProgram]);
    assert_eq!(calls[2].accounts, vec![Role::User, Role::Holding, Role::SystemProgram]);
    assert_eq!(
        calls[3].accounts,
        vec![Role::Holding, Role::Mint, Role::User, Role::RentSysvar, Role::TokenProgram]
    );
    assert_eq!(
        calls[4].accounts,
        vec![Role::Mint, Role::Holding, Role::User, Role::TokenProgram]
    );
}

#[test]
fn programs_are_the_system_and_the_token_program() {
    let calls = steps(&party(1), &party(2), &party(3), 10, 20);
    assert_eq!(calls[0].call.program.to_bytes(), [0u8; 32]);
    assert_eq!(calls[2].call.program.to_bytes(), [0u8; 32]);
    assert_eq!(pubkey(&calls[0].call.program), solana_program::system_program::id());
    let token = [
        6u8, 221, 246, 225, 215, 101, 161, 147, 217, 203, 225, 70, 206, 235, 121, 172, 28, 180,
        133, 237, 95, 91, 55, 145, 58, 140, 245, 133, 126, 255, 0, 169,
    ];
    for step in [1usize, 3, 4] {
        assert_eq!(calls[step].call.program.to_bytes(), token);
    }
    assert_eq!(spl_token::id().to_bytes(), token);
}

#[test]
fn token_calls_have_the_expected_accounts_and_data() {
    let (user, mint, holding) = (party(1), party(2), party(3));
    let calls = steps(&user, &mint, &holding, 10, 20);
    let rent = [
        6u8, 167, 213, 23, 25, 44, 92, 81, 33, 140, 201, 76, 61, 74, 241, 127, 88, 218, 238, 8,
        155, 161, 253, 68, 227, 219, 217, 138, 0, 0, 0, 0,
    ];
    assert_eq!(solana_program::sysvar::rent::id().to_bytes(), rent);

    let init_mint = &calls[1].call;
    let keys: Vec<([u8; 32], bool, bool)> = init_mint
        .accounts
        .iter()
        .map(|a| (a.key.to_bytes(), a.is_signer, a.is_writable))
        .collect();
    assert_eq!(keys, vec![(mint.to_bytes(), false, true), (rent, false, false)]);
    let mut data = vec![0u8, 0];
    data.extend_from_slice(&user.to_bytes());
    data.push(0);
    assert_eq!(init_mint.data, data);

    let init_holding = &calls[3].call;
    let keys: Vec<([u8; 32], bool, bool)> = init_holding
        .accounts
        .iter()
        .map(|a| (a.key.to_bytes(), a.is_signer, a.is_writable))
        .collect();
    assert_eq!(
        keys,
        vec![
            (holding.to_bytes(), false, true),
            (mint.to_bytes(), false, false),
            (user.to_bytes(), false, false),
            (rent, false, false),
        ]
    );
    assert_eq!(init_holding.data, vec![1u8]);

    let issue = &calls[4].call;
    let keys: Vec<([u8; 32], bool, bool)> = issue
        .accounts
        .iter()
        .map(|a| (a.key.to_bytes(), a.is_signer, a.is_writable))
        .collect();
    assert_eq!(
        keys,
        vec![
            (mint.to_bytes(), false, true),
            (holding.to_bytes(), false, true),
            (user.to_bytes(), true, false),
        ]
    );
    assert_eq!(issue.data, vec![7u8, 1, 0, 0, 0, 0, 0, 0, 0]);
}

#[test]
fn create_calls_name_payer_and_new_account_as_signers() {
    let (user, mint, holding) = (party(1), party(2), party(3));
    let calls = steps(&user, &mint, &holding, 0x0102, 0x0304);
    let create_mint = &calls[0].call;
    let keys: Vec<([u8; 32], bool, bool)> = create_mint
        .accounts
        .iter()
        .map(|a| (a.key.to_bytes(), a.is_signer, a.is_writable))
        .collect();
    assert_eq!(keys, vec![(user.to_bytes(), true, true), (mint.to_bytes(), true, true)]);
    let create_holding = &calls[2].call;
    assert_eq!(create_holding.accounts[1].key.to_bytes(), holding.to_bytes());
    assert_ne!(create_mint.data, create_holding.data);
    let same = steps(&user, &mint, &holding, 0x0102, 0x0304);
    assert_eq!(same[0].call.data, create_mint.data);
}

#[test]
fn seeds_are_the_identity_of_the_user_alone() {
    let user = party(5);
    let authority = SigningAuthority::derive(&user);
    assert_eq!(authority.holder().to_bytes(), user.to_bytes());
    assert_eq!(authority.signer_seeds(), vec![user.to_bytes().to_vec()]);
    assert_eq!(
        SigningAuthority::derive(&user).signer_seeds(),
        SigningAuthority::derive(&user).signer_seeds()
    );
    assert_ne!(
        SigningAuthority::derive(&user).signer_seeds(),
        SigningAuthority::derive(&party(6)).signer_seeds()
    );
}

#[test]
fn seeds_are_the_same_whatever_else_differs() {
    let user = party(5);
    let one = issuance_calls(SigningAuthority::derive(&user), &party(2), &party(3), 10, 20);
    let other = issuance_calls(SigningAuthority::derive(&user), &party(7), &party(8), 999, 1);
    assert_eq!(one.seeds, other.seeds);
    assert_eq!(one.seeds, vec![user.to_bytes().to_vec()]);
    let mut run = BridgeRun::start(one);
    for _ in 0..5 {
        assert_eq!(run.signer_seeds(), &vec![user.to_bytes().to_vec()]);
        run.report(true);
    }
    assert_eq!(run.signer_seeds(), &vec![user.to_bytes().to_vec()]);
}

#[test]
fn issuance_carries_the_seeds_of_its_authority() {
    let user = party(5);
    let authority = SigningAuthority::derive(&user);
    let issuance = issuance_calls(authority, &party(2), &party(3), 10, 20);
    assert_eq!(issuance.seeds, vec![user.to_bytes().to_vec()]);
    assert_eq!(issuance.calls.len(), 5);
    assert_eq!(issuance.calls[0].call.accounts[0].key.to_bytes(), user.to_bytes());
}

#[test]
fn account_and_call_hold_what_they_are_given() {
    let account = AccountRef::new([3u8; 32], true, false);
    assert_eq!(account.key.to_bytes(), [3u8; 32]);
    assert!(account.is_signer);
    assert!(!account.is_writable);
    let call = ProgramCall::new([4u8; 32], vec![account], vec![1, 2, 3]);
    assert_eq!(call.program.to_bytes(), [4u8; 32]);
    assert_eq!(call.accounts.len(), 1);
    assert_eq!(call.accounts[0].key.to_bytes(), [3u8; 32]);
    assert_eq!(call.data, vec![1, 2, 3]);
}

fn new_run() -> BridgeRun {
    let authority = SigningAuthority::derive(&party(1));
    BridgeRun::start(issuance_calls(authority, &party(2), &party(3), 10, 20))
}

#[test]
fn run_takes_the_steps_in_order_and_ends_issued() {
    let expected = steps(&party(1), &party(2), &party(3), 10, 20);
    let mut run = new_run();
    assert_eq!(run.signer_seeds(), &vec![party(1).to_bytes().to_vec()]);
    for step in expected.iter() {
        assert!(!run.is_issued());
        let next = run.next_call().unwrap();
        assert_eq!(as_instruction(&next.call), as_instruction(&step.call));
        assert_eq!(next.accounts, step.accounts);
        run.report(true);
    }
    assert!(run.next_call().is_none());
    assert!(run.is_issued());
    run.report(false);
    assert!(run.is_issued());
}

#[test]
fn run_stops_at_the_first_failure() {
    let mut run = new_run();
    run.report(true);
    run.report(true);
    run.report(false);
    assert!(run.next_call().is_none());
    assert!(!run.is_issued());
    run.report(true);
    run.report(true);
    run.report(true);
    assert!(run.next_call().is_none());
    assert!(!run.is_issued());
}

#[test]
fn assembly_keeps_the_calls_in_order_with_their_accounts() {
    let call = |tag: u8| ProgramCall::new([tag; 32], Vec::new(), vec![tag]);
    let seeds = vec![vec![1u8, 2], vec![3u8]];
    let issuance = assemble_issuance(call(1), call(2), call(3), call(4), call(5), seeds.clone());
    assert_eq!(issuance.seeds, seeds);
    let data: Vec<Vec<u8>> = issuance.calls.iter().map(|step| step.call.data.clone()).collect();
    assert_eq!(data, vec![vec![1u8], vec![2], vec![3], vec![4], vec![5]]);
    assert_eq!(issuance.calls[0].accounts, vec![Role::User, Role::Mint, Role::SystemProgram]);
    assert_eq!(issuance.calls[1].accounts, vec![Role::Mint, Role::RentSysvar, Role::TokenProgram]);
    assert_eq!(issuance.calls[2].accounts, vec![Role::User, Role::Holding, Role::SystemProgram]);
    assert_eq!(
        issuance.calls[3].accounts,
        vec![Role::Holding, Role::Mint, Role::User, Role::RentSysvar, Role::TokenProgram]
    );
    assert_eq!(
        issuance.calls[4].accounts,
        vec![Role::Mint, Role::Holding, Role::User, Role::TokenProgram]
    );
}
