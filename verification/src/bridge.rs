//! The issuance of the credential: five calls to outside programs, in order.
//!
//! The library says which calls are to be made, with which accounts and under
//! which signer seeds. Making them is left to the host's runtime. Each call
//! can fail, and the first failure ends the issuance.

use crate::address::Address;
use crate::error::LedgerError;
use crate::friends::keys_of;
use solana_program::program_error::ProgramError;
use solana_program::pubkey::Pubkey;
use vstd::bytes::spec_u64_to_le_bytes;
use vstd::prelude::*;

verus! {

/// The length of a mint descriptor.
pub const MINT_SPACE: u64 = 82;

/// The length of a holding descriptor.
pub const HOLDING_SPACE: u64 = 165;

/// The decimal places of the credential: it comes in whole units.
pub const CREDENTIAL_DECIMALS: u8 = 0;

/// The units that are issued.
pub const CREDENTIAL_UNITS: u64 = 1;

/// An account that a call names, and what the call may do with it.
#[derive(Clone, Copy, Debug)]
pub struct AccountRef {
    pub key: Address,
    pub is_signer: bool,
    pub is_writable: bool,
}

/// An account that a call names, by the bytes of its identity.
pub struct AccountRefView {
    pub key: Seq<u8>,
    pub is_signer: bool,
    pub is_writable: bool,
}

impl View for AccountRef {
    type V = AccountRefView;

    open spec fn view(&self) -> AccountRefView {
        AccountRefView { key: self.key@, is_signer: self.is_signer, is_writable: self.is_writable }
    }
}

impl AccountRef {
    /// The account with the identity `key`.
    pub fn new(key: [u8; 32], is_signer: bool, is_writable: bool) -> (account: AccountRef)
        ensures
            account@ == (AccountRefView { key: key@, is_signer, is_writable }),
    {
        AccountRef { key: Address::new(key), is_signer, is_writable }
    }
}

/// A call to a program: the program, the accounts and the data that it gets.
#[derive(Clone, Debug)]
pub struct ProgramCall {
    pub program: Address,
    pub accounts: Vec<AccountRef>,
    pub data: Vec<u8>,
}

/// A call to a program, in plain values.
pub struct ProgramCallView {
    pub program: Seq<u8>,
    pub accounts: Seq<AccountRefView>,
    pub data: Seq<u8>,
}

/// The accounts of a sequence, each by its view.
pub open spec fn account_views(accounts: Seq<AccountRef>) -> Seq<AccountRefView> {
    accounts.map_values(|a: AccountRef| a@)
}

impl View for ProgramCall {
    type V = ProgramCallView;

    open spec fn view(&self) -> ProgramCallView {
        ProgramCallView {
            program: self.program@,
            accounts: account_views(self.accounts@),
            data: self.data@,
        }
    }
}

impl ProgramCall {
    /// The call to the program with the identity `program`.
    pub fn new(program: [u8; 32], accounts: Vec<AccountRef>, data: Vec<u8>) -> (call: ProgramCall)
        ensures
            call@ == (ProgramCallView {
                program: program@,
                accounts: account_views(accounts@),
                data: data@,
            }),
    {
        ProgramCall { program: Address::new(program), accounts, data }
    }
}

/// The accounts that take part in an issuance.
#[derive(Clone, Copy, Debug, PartialEq, Eq, Structural)]
pub enum Role {
    /// The profile that earns the credential. It pays, and it signs by seeds.
    User,
    /// The slot of the mint descriptor.
    Mint,
    /// The slot that holds the credential.
    Holding,
    /// The program that creates slots.
    SystemProgram,
    /// The program that runs mints and holdings.
    TokenProgram,
    /// The account that tells the rent.
    RentSysvar,
}

/// A step of the issuance: a call, and the accounts that are handed to the
/// runtime with it.
#[derive(Clone, Debug)]
pub struct BridgeCall {
    pub call: ProgramCall,
    pub accounts: Vec<Role>,
}

/// A step of the issuance, in plain values.
pub struct BridgeCallView {
    pub call: ProgramCallView,
    pub accounts: Seq<Role>,
}

impl View for BridgeCall {
    type V = BridgeCallView;

    open spec fn view(&self) -> BridgeCallView {
        BridgeCallView { call: self.call@, accounts: self.accounts@ }
    }
}

/// The steps of a sequence, each by its view.
pub open spec fn call_views(calls: Seq<BridgeCall>) -> Seq<BridgeCallView> {
    calls.map_values(|c: BridgeCall| c@)
}

/// The identity of the program that creates slots: 32 zero bytes.
pub open spec fn system_program_key() -> Seq<u8> {
    Seq::new(32, |i: int| 0u8)
}

/// The identity of the token program,
/// `TokenkegQfeZyiNwAJbNbGKPFXCWuBvf9Ss623VQ5DA` in base 58.
pub open spec fn token_program_key() -> Seq<u8> {
    seq![
        6u8, 221, 246, 225, 215, 101, 161, 147, 217, 203, 225, 70, 206, 235, 121, 172,
        28, 180, 133, 237, 95, 91, 55, 145, 58, 140, 245, 133, 126, 255, 0, 169,
    ]
}

/// The identity of the account that tells the rent,
/// `SysvarRent111111111111111111111111111111111` in base 58.
pub open spec fn rent_sysvar_key() -> Seq<u8> {
    seq![
        6u8, 167, 213, 23, 25, 44, 92, 81, 33, 140, 201, 76, 61, 74, 241, 127,
        88, 218, 238, 8, 155, 161, 253, 68, 227, 219, 217, 138, 0, 0, 0, 0,
    ]
}

/// An account that the call may change.
pub open spec fn writable(key: Seq<u8>, is_signer: bool) -> AccountRefView {
    AccountRefView { key, is_signer, is_writable: true }
}

/// An account that the call only reads.
pub open spec fn readonly(key: Seq<u8>, is_signer: bool) -> AccountRefView {
    AccountRefView { key, is_signer, is_writable: false }
}

/// The data with which the system program is asked to create an account.
pub uninterp spec fn create_account_data(lamports: u64, space: u64, owner: Seq<u8>) -> Seq<u8>;

/// The call that creates an account of `space` bytes for the program `owner`,
/// with `lamports` from `payer`.
pub open spec fn create_account_call(
    payer: Seq<u8>,
    new_account: Seq<u8>,
    lamports: u64,
    space: u64,
    owner: Seq<u8>,
) -> ProgramCallView {
    ProgramCallView {
        program: system_program_key(),
        accounts: seq![writable(payer, true), writable(new_account, true)],
        data: create_account_data(lamports, space, owner),
    }
}

/// The identity that an optional account stands for.
pub open spec fn optional_key(account: Option<Address>) -> Option<Seq<u8>> {
    match account {
        Some(account) => Some(account@),
        None => None,
    }
}

/// The bytes that tell an optional identity: a byte 1 and the identity, or a
/// byte 0 where there is none.
pub open spec fn optional_key_bytes(key: Option<Seq<u8>>) -> Seq<u8> {
    match key {
        Some(key) => seq![1u8] + key,
        None => seq![0u8],
    }
}

/// The call that makes `mint` a mint of `authority`, which `freeze_authority`
/// can freeze, or nobody where there is none.
pub open spec fn initialize_mint_call(
    token_program: Seq<u8>,
    mint: Seq<u8>,
    authority: Seq<u8>,
    freeze_authority: Option<Seq<u8>>,
    decimals: u8,
) -> ProgramCallView {
    ProgramCallView {
        program: token_program,
        accounts: seq![writable(mint, false), readonly(rent_sysvar_key(), false)],
        data: seq![0u8, decimals] + authority + optional_key_bytes(freeze_authority),
    }
}

/// The call that makes `account` a holding of `mint` that belongs to `owner`.
pub open spec fn initialize_account_call(
    token_program: Seq<u8>,
    account: Seq<u8>,
    mint: Seq<u8>,
    owner: Seq<u8>,
) -> ProgramCallView {
    ProgramCallView {
        program: token_program,
        accounts: seq![
            writable(account, false),
            readonly(mint, false),
            readonly(owner, false),
            readonly(rent_sysvar_key(), false),
        ],
        data: seq![1u8],
    }
}

/// The call with which `authority` issues `amount` units of `mint` into
/// `account`. Where `signers` are named they sign in place of the authority.
pub open spec fn mint_to_call(
    token_program: Seq<u8>,
    mint: Seq<u8>,
    account: Seq<u8>,
    authority: Seq<u8>,
    signers: Seq<Seq<u8>>,
    amount: u64,
) -> ProgramCallView {
    ProgramCallView {
        program: token_program,
        accounts: seq![
            writable(mint, false),
            writable(account, false),
            readonly(authority, signers.len() == 0),
        ] + signers.map_values(|signer: Seq<u8>| readonly(signer, true)),
        data: seq![7u8] + spec_u64_to_le_bytes(amount),
    }
}

/// The five calls of an issuance as steps, each with the accounts that the
/// runtime gets with it.
pub open spec fn steps_of(
    create_mint: ProgramCallView,
    initialize_mint: ProgramCallView,
    create_holding: ProgramCallView,
    initialize_holding: ProgramCallView,
    issue: ProgramCallView,
) -> Seq<BridgeCallView> {
    seq![
        BridgeCallView {
            call: create_mint,
            accounts: seq![Role::User, Role::Mint, Role::SystemProgram],
        },
        BridgeCallView {
            call: initialize_mint,
            accounts: seq![Role::Mint, Role::RentSysvar, Role::TokenProgram],
        },
        BridgeCallView {
            call: create_holding,
            accounts: seq![Role::User, Role::Holding, Role::SystemProgram],
        },
        BridgeCallView {
            call: initialize_holding,
            accounts: seq![
                Role::Holding,
                Role::Mint,
                Role::User,
                Role::RentSysvar,
                Role::TokenProgram,
            ],
        },
        BridgeCallView {
            call: issue,
            accounts: seq![Role::Mint, Role::Holding, Role::User, Role::TokenProgram],
        },
    ]
}

/// The five steps that issue the credential to `user`: create the mint slot,
/// make it a mint of whole units under the user's authority, which nobody can
/// freeze, create the holding slot, make it the user's holding of that mint,
/// and issue one unit into it, signed by the user alone.
pub open spec fn issuance_plan(
    user: Seq<u8>,
    mint: Seq<u8>,
    holding: Seq<u8>,
    mint_rent: u64,
    holding_rent: u64,
) -> Seq<BridgeCallView> {
    steps_of(
        create_account_call(user, mint, mint_rent, MINT_SPACE, token_program_key()),
        initialize_mint_call(token_program_key(), mint, user, None, CREDENTIAL_DECIMALS),
        create_account_call(user, holding, holding_rent, HOLDING_SPACE, token_program_key()),
        initialize_account_call(token_program_key(), holding, mint, user),
        mint_to_call(
            token_program_key(),
            mint,
            holding,
            user,
            Seq::<Seq<u8>>::empty(),
            CREDENTIAL_UNITS,
        ),
    )
}

/// The seeds under which the user signs the calls: the user's identity, and
/// nothing else.
pub open spec fn seeds_of(user: Seq<u8>) -> Seq<Seq<u8>> {
    seq![user]
}

/// The seeds of a sequence, each by its bytes.
pub open spec fn seed_views(seeds: Seq<Vec<u8>>) -> Seq<Seq<u8>> {
    seeds.map_values(|seed: Vec<u8>| seed@)
}

/// The error type of the outside programs.
#[verifier::external_type_specification]
#[verifier::external_body]
pub struct ExProgramError(ProgramError);

/// `spl_token::id`: the identity of the token program.
#[verifier::external_body]
fn token_program_id() -> (id: Address)
    ensures
        id@ == token_program_key(),
{
    Address::new(spl_token::id().to_bytes())
}

/// `solana_program::system_instruction::create_account`: a call to the system
/// program that names the payer and the new account, both as signers that the
/// call may change. Its data depend on the lamports, the space and the owner
/// alone.
#[verifier::external_body]
fn system_create_account(
    payer: &Address,
    new_account: &Address,
    lamports: u64,
    space: u64,
    owner: &Address,
) -> (call: ProgramCall)
    ensures
        call@.program == system_program_key(),
        call@.accounts == seq![writable(payer@, true), writable(new_account@, true)],
        call@.data == create_account_data(lamports, space, owner@),
{
    let ix = solana_program::system_instruction::create_account(
        &Pubkey::new_from_array(payer.bytes),
        &Pubkey::new_from_array(new_account.bytes),
        lamports,
        space,
        &Pubkey::new_from_array(owner.bytes),
    );
    let metas = ix.accounts.iter();
    let accounts = metas.map(|m| AccountRef::new(m.pubkey.to_bytes(), m.is_signer, m.is_writable));
    ProgramCall::new(ix.program_id.to_bytes(), accounts.collect(), ix.data)
}

/// `spl_token::instruction::initialize_mint`. It refuses every program but the
/// token program. The call names the mint, which it may change, and the rent
/// account; its data are the byte 0, the decimals, the authority, and for the
/// freeze authority a byte 1 and its identity, or a byte 0 where there is
/// none.
#[verifier::external_body]
fn token_initialize_mint(
    token_program: &Address,
    mint: &Address,
    authority: &Address,
    freeze_authority: Option<Address>,
    decimals: u8,
) -> (r: Result<ProgramCall, ProgramError>)
    ensures
        r is Ok <==> token_program@ == token_program_key(),
        r is Ok ==> r.unwrap()@ == initialize_mint_call(
            token_program@,
            mint@,
            authority@,
            optional_key(freeze_authority),
            decimals,
        ),
{
    let freeze = freeze_authority.map(|a| Pubkey::new_from_array(a.bytes));
    let ix = spl_token::instruction::initialize_mint(
        &Pubkey::new_from_array(token_program.bytes),
        &Pubkey::new_from_array(mint.bytes),
        &Pubkey::new_from_array(authority.bytes),
        freeze.as_ref(),
        decimals,
    )?;
    let metas = ix.accounts.iter();
    let accounts = metas.map(|m| AccountRef::new(m.pubkey.to_bytes(), m.is_signer, m.is_writable));
    Ok(ProgramCall::new(ix.program_id.to_bytes(), accounts.collect(), ix.data))
}

/// `spl_token::instruction::initialize_account`. It refuses every program but
/// the token program. The call names the account, which it may change, the
/// mint, the owner and the rent account; its data are the byte 1.
#[verifier::external_body]
fn token_initialize_account(
    token_program: &Address,
    account: &Address,
    mint: &Address,
    owner: &Address,
) -> (r: Result<ProgramCall, ProgramError>)
    ensures
        r is Ok <==> token_program@ == token_program_key(),
        r is Ok ==> r.unwrap()@ == initialize_account_call(
            token_program@,
            account@,
            mint@,
            owner@,
        ),
{
    let ix = spl_token::instruction::initialize_account(
        &Pubkey::new_from_array(token_program.bytes),
        &Pubkey::new_from_array(account.bytes),
        &Pubkey::new_from_array(mint.bytes),
        &Pubkey::new_from_array(owner.bytes),
    )?;
    let metas = ix.accounts.iter();
    let accounts = metas.map(|m| AccountRef::new(m.pubkey.to_bytes(), m.is_signer, m.is_writable));
    Ok(ProgramCall::new(ix.program_id.to_bytes(), accounts.collect(), ix.data))
}

/// `spl_token::instruction::mint_to`. It refuses every program but the token
/// program. The call names the mint and the account, which it may change, the
/// authority, which signs where no signers are named, and then each signer;
/// its data are the byte 7 and the amount in little-endian order.
#[verifier::external_body]
fn token_mint_to(
    token_program: &Address,
    mint: &Address,
    account: &Address,
    authority: &Address,
    signers: &Vec<Address>,
    amount: u64,
) -> (r: Result<ProgramCall, ProgramError>)
    ensures
        r is Ok <==> token_program@ == token_program_key(),
        r is Ok ==> r.unwrap()@ == mint_to_call(
            token_program@,
            mint@,
            account@,
            authority@,
            keys_of(signers@),
            amount,
        ),
{
    let keys: Vec<Pubkey> = signers.iter().map(|s| Pubkey::new_from_array(s.bytes)).collect();
    let ix = spl_token::instruction::mint_to(
        &Pubkey::new_from_array(token_program.bytes),
        &Pubkey::new_from_array(mint.bytes),
        &Pubkey::new_from_array(account.bytes),
        &Pubkey::new_from_array(authority.bytes),
        &keys.iter().collect::<Vec<&Pubkey>>(),
        amount,
    )?;
    let metas = ix.accounts.iter();
    let accounts = metas.map(|m| AccountRef::new(m.pubkey.to_bytes(), m.is_signer, m.is_writable));
    Ok(ProgramCall::new(ix.program_id.to_bytes(), accounts.collect(), ix.data))
}

/// The roles of a step, in the order in which the runtime gets the accounts.
fn roles(first: Role, second: Role, third: Role) -> (r: Vec<Role>)
    ensures
        r@ == seq![first, second, third],
{
    let mut r: Vec<Role> = Vec::new();
    r.push(first);
    r.push(second);
    r.push(third);
    assert(r@ =~= seq![first, second, third]);
    r
}

/// The authority under which a user signs the calls of an issuance. It is
/// derived from the user's identity and from nothing else, no key is held for
/// it, and an issuance uses it up.
#[derive(Debug)]
pub struct SigningAuthority {
    user: Address,
}

impl SigningAuthority {
    /// The user whose authority it is.
    pub closed spec fn user(&self) -> Seq<u8> {
        self.user@
    }

    /// The seeds under which the runtime lets the user sign.
    pub open spec fn seeds(&self) -> Seq<Seq<u8>> {
        seeds_of(self.user())
    }

    /// The authority of `user`.
    pub fn derive(user: &Address) -> (authority: SigningAuthority)
        ensures
            authority.user() == user@,
            authority.seeds() == seeds_of(user@),
    {
        SigningAuthority { user: *user }
    }

    /// The user whose authority it is.
    pub fn holder(&self) -> (user: Address)
        ensures
            user@ == self.user(),
    {
        self.user
    }

    /// The seeds under which the runtime lets the user sign.
    pub fn signer_seeds(&self) -> (seeds: Vec<Vec<u8>>)
        ensures
            seed_views(seeds@) == self.seeds(),
    {
        let mut key: Vec<u8> = Vec::new();
        crate::wire::put_address(&mut key, &self.user);
        let mut seeds: Vec<Vec<u8>> = Vec::new();
        seeds.push(key);
        assert(seeds@[0]@ =~= self.user@);
        assert(seed_views(seeds@) =~= self.seeds());
        seeds
    }
}

/// The seeds depend on the user alone: two authorities of one user sign under
/// the same seeds, whatever else differs between the two invocations.
pub proof fn lemma_seeds_of_user_alone(one: SigningAuthority, other: SigningAuthority)
    requires
        one.user() == other.user(),
    ensures
        one.seeds() == other.seeds(),
{
}

/// An issuance that is ready to be carried out: the steps in order, and the
/// seeds under which the user signs each of them.
#[derive(Debug)]
pub struct Issuance {
    pub calls: Vec<BridgeCall>,
    pub seeds: Vec<Vec<u8>>,
}

/// Puts the five calls of an issuance in order, each with the accounts that
/// the runtime gets with it, and the seeds beside them.
pub fn assemble_issuance(
    create_mint: ProgramCall,
    initialize_mint: ProgramCall,
    create_holding: ProgramCall,
    initialize_holding: ProgramCall,
    issue: ProgramCall,
    seeds: Vec<Vec<u8>>,
) -> (issuance: Issuance)
    ensures
        call_views(issuance.calls@) == steps_of(
            create_mint@,
            initialize_mint@,
            create_holding@,
            initialize_holding@,
            issue@,
        ),
        issuance.seeds == seeds,
{
    let mut holding_roles = roles(Role::Holding, Role::Mint, Role::User);
    holding_roles.push(Role::RentSysvar);
    holding_roles.push(Role::TokenProgram);
    let mut issue_roles = roles(Role::Mint, Role::Holding, Role::User);
    issue_roles.push(Role::TokenProgram);

    let mut calls: Vec<BridgeCall> = Vec::new();
    calls.push(
        BridgeCall { call: create_mint, accounts: roles(Role::User, Role::Mint, Role::SystemProgram) },
    );
    calls.push(
        BridgeCall {
            call: initialize_mint,
            accounts: roles(Role::Mint, Role::RentSysvar, Role::TokenProgram),
        },
    );
    calls.push(
        BridgeCall {
            call: create_holding,
            accounts: roles(Role::User, Role::Holding, Role::SystemProgram),
        },
    );
    calls.push(BridgeCall { call: initialize_holding, accounts: holding_roles });
    calls.push(BridgeCall { call: issue, accounts: issue_roles });

    proof {
        let plan = steps_of(
            create_mint@,
            initialize_mint@,
            create_holding@,
            initialize_holding@,
            issue@,
        );
        let views = call_views(calls@);
        assert(views.len() == plan.len());
        assert(views[0].accounts =~= plan[0].accounts);
        assert(views[1].accounts =~= plan[1].accounts);
        assert(views[2].accounts =~= plan[2].accounts);
        assert(views[3].accounts =~= plan[3].accounts);
        assert(views[4].accounts =~= plan[4].accounts);
        assert(views =~= plan);
    }
    Issuance { calls, seeds }
}

/// The issuance of the credential by way of the program `token_program`: the
/// token program takes the calls, and every other program is refused.
fn issuance_by(
    token_program: &Address,
    authority: SigningAuthority,
    mint: &Address,
    holding: &Address,
    mint_rent: u64,
    holding_rent: u64,
) -> (r: Result<Issuance, LedgerError>)
    ensures
        match r {
            Ok(issuance) => token_program@ == token_program_key() && call_views(issuance.calls@)
                == issuance_plan(authority.user(), mint@, holding@, mint_rent, holding_rent)
                && seed_views(issuance.seeds@) == authority.seeds(),
            Err(e) => e == LedgerError::BridgeFailure && token_program@ != token_program_key(),
        },
{
    let holder = authority.holder();
    let user = &holder;
    let no_signers: Vec<Address> = Vec::new();
    let create_mint = system_create_account(user, mint, mint_rent, MINT_SPACE, token_program);
    let initialize_mint = match token_initialize_mint(
        token_program,
        mint,
        user,
        None,
        CREDENTIAL_DECIMALS,
    ) {
        Ok(call) => call,
        Err(_) => {
            return Err(LedgerError::BridgeFailure);
        },
    };
    let create_holding = system_create_account(
        user,
        holding,
        holding_rent,
        HOLDING_SPACE,
        token_program,
    );
    let initialize_holding = match token_initialize_account(token_program, holding, mint, user) {
        Ok(call) => call,
        Err(_) => {
            return Err(LedgerError::BridgeFailure);
        },
    };
    let issue = match token_mint_to(
        token_program,
        mint,
        holding,
        user,
        &no_signers,
        CREDENTIAL_UNITS,
    ) {
        Ok(call) => call,
        Err(_) => {
            return Err(LedgerError::BridgeFailure);
        },
    };
    proof {
        assert(keys_of(no_signers@) =~= Seq::<Seq<u8>>::empty());
        assert(create_mint@ == create_account_call(
            user@,
            mint@,
            mint_rent,
            MINT_SPACE,
            token_program_key(),
        ));
        assert(create_holding@ == create_account_call(
            user@,
            holding@,
            holding_rent,
            HOLDING_SPACE,
            token_program_key(),
        ));
    }
    let seeds = authority.signer_seeds();
    Ok(
        assemble_issuance(
            create_mint,
            initialize_mint,
            create_holding,
            initialize_holding,
            issue,
            seeds,
        ),
    )
}

/// The issuance of the credential to the user of `authority`, with `mint` as
/// the slot of the mint and `holding` as the slot that holds the unit.
/// `mint_rent` and `holding_rent` are the balances that keep the two slots
/// free of rent. The authority is used up.
pub fn issuance_calls(
    authority: SigningAuthority,
    mint: &Address,
    holding: &Address,
    mint_rent: u64,
    holding_rent: u64,
) -> (issuance: Issuance)
    ensures
        call_views(issuance.calls@) == issuance_plan(
            authority.user(),
            mint@,
            holding@,
            mint_rent,
            holding_rent,
        ),
        seed_views(issuance.seeds@) == authority.seeds(),
{
    let token_program = token_program_id();
    issuance_by(&token_program, authority, mint, holding, mint_rent, holding_rent).unwrap()
}

/// An issuance under way: the steps that went through, whether one failed,
/// and what is left to do. The steps are taken in order, none is tried again,
/// and after a failure none is taken any more.
#[derive(Debug)]
pub struct BridgeRun {
    issuance: Issuance,
    done: usize,
    failed: bool,
}

impl BridgeRun {
    /// No more steps went through than there are.
    pub closed spec fn wf(&self) -> bool {
        self.done <= self.issuance.calls@.len()
    }

    /// The steps of the issuance.
    pub closed spec fn plan(&self) -> Seq<BridgeCallView> {
        call_views(self.issuance.calls@)
    }

    /// The seeds under which the user signs each step.
    pub closed spec fn seeds(&self) -> Seq<Seq<u8>> {
        seed_views(self.issuance.seeds@)
    }

    /// The number of steps that went through.
    pub closed spec fn done(&self) -> nat {
        self.done as nat
    }

    /// Whether a step failed.
    pub closed spec fn failed(&self) -> bool {
        self.failed
    }

    /// A step is to be taken: none has failed and not all are done.
    pub open spec fn pending(&self) -> bool {
        !self.failed() && self.done() < self.plan().len()
    }

    /// The credential is issued: every step went through.
    pub open spec fn issued(&self) -> bool {
        !self.failed() && self.done() == self.plan().len()
    }

    /// The run before its first step.
    pub fn start(issuance: Issuance) -> (run: BridgeRun)
        ensures
            run.wf(),
            run.plan() == call_views(issuance.calls@),
            run.seeds() == seed_views(issuance.seeds@),
            run.done() == 0,
            !run.failed(),
    {
        BridgeRun { issuance, done: 0, failed: false }
    }

    /// The step to take now, if one is to be taken.
    pub fn next_call(&self) -> (next: Option<&BridgeCall>)
        requires
            self.wf(),
        ensures
            match next {
                Some(step) => self.pending() && step@ == self.plan()[self.done() as int],
                None => !self.pending(),
            },
    {
        if self.failed || self.done >= self.issuance.calls.len() {
            None
        } else {
            Some(&self.issuance.calls[self.done])
        }
    }

    /// The seeds under which the user signs each step.
    pub fn signer_seeds(&self) -> (seeds: &Vec<Vec<u8>>)
        ensures
            seed_views(seeds@) == self.seeds(),
    {
        &self.issuance.seeds
    }

    /// Takes note of how the step that was to be taken ended. Where no step
    /// was to be taken the run stays as it is.
    pub fn report(&mut self, succeeded: bool)
        requires
            old(self).wf(),
        ensures
            final(self).wf(),
            final(self).plan() == old(self).plan(),
            final(self).seeds() == old(self).seeds(),
            final(self).done() == if old(self).pending() && succeeded {
                old(self).done() + 1
            } else {
                old(self).done()
            },
            final(self).failed() == (old(self).failed() || (old(self).pending() && !succeeded)),
    {
        if !self.failed && self.done < self.issuance.calls.len() {
            if succeeded {
                self.done = self.done + 1;
            } else {
                self.failed = true;
            }
        }
    }

    /// Whether the credential is issued.
    pub fn is_issued(&self) -> (issued: bool)
        requires
            self.wf(),
        ensures
            issued == self.issued(),
    {
        !self.failed && self.done == self.issuance.calls.len()
    }
}

} // verus!
