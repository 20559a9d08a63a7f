use vstd::prelude::*;

verus! {

/// One creator entry of a position's metadata.
#[derive(Debug, Clone, Copy)]
pub struct Creator {
    pub address: [u8; 32],
    pub verified: bool,
    pub share: u8,
}

/// The records that issuing metadata for a position's identity token names:
/// the payer, the pool configuration that is the token's mint and update
/// authority (with the bump of its derived address), the identity mint, the
/// metadata record to create, and the metadata program.
#[derive(Debug, Clone, Copy)]
pub struct PersonalPositionWithMetadata {
    pub payer: [u8; 32],
    pub amm_config: [u8; 32],
    pub amm_config_bump: u8,
    pub nft_mint: [u8; 32],
    pub metadata_account: [u8; 32],
    pub metadata_program: [u8; 32],
}

/// What the metadata program is asked to create, signed for with
/// `signer_seed`, and the mint whose minting authority is then revoked so
/// that no second identity token can exist.
#[derive(Debug, Clone)]
pub struct PositionMetadataRequest {
    pub metadata_program: [u8; 32],
    pub metadata_account: [u8; 32],
    pub mint: [u8; 32],
    pub mint_authority: [u8; 32],
    pub payer: [u8; 32],
    pub update_authority: [u8; 32],
    pub name: String,
    pub symbol: String,
    pub uri: String,
    pub creators: Vec<Creator>,
    pub seller_fee_basis_points: u16,
    pub update_authority_is_signer: bool,
    pub is_mutable: bool,
    pub signer_seed: Vec<u8>,
    pub revoke_mint_authority_of: [u8; 32],
}

/// Builds the metadata request for a position's identity token: the pool
/// configuration is mint authority, update authority and sole verified
/// creator with the whole share; the name is fixed, symbol and URI are
/// empty, there is no seller fee, and the record is immutable. The
/// configuration signs with its bump, and the identity mint's minting
/// authority is then revoked.
pub fn personal_position_with_metadata(accounts: &PersonalPositionWithMetadata) -> (r: PositionMetadataRequest)
    ensures
        r.metadata_program == accounts.metadata_program,
        r.metadata_account == accounts.metadata_account,
        r.mint == accounts.nft_mint,
        r.mint_authority == accounts.amm_config,
        r.payer == accounts.payer,
        r.update_authority == accounts.amm_config,
        r.name@ == "Raydium AMM V3 Positions"@,
        r.symbol@.len() == 0,
        r.uri@.len() == 0,
        r.creators@.len() == 1,
        r.creators@[0].address == accounts.amm_config,
        r.creators@[0].verified,
        r.creators@[0].share == 100,
        r.seller_fee_basis_points == 0,
        r.update_authority_is_signer,
        !r.is_mutable,
        r.signer_seed@ == seq![accounts.amm_config_bump],
        r.revoke_mint_authority_of == accounts.nft_mint,
{
    let mut creators: Vec<Creator> = Vec::new();
    creators.push(Creator { address: accounts.amm_config, verified: true, share: 100 });
    let mut signer_seed: Vec<u8> = Vec::new();
    signer_seed.push(accounts.amm_config_bump);
    proof {
        reveal_strlit("");
    }
    PositionMetadataRequest {
        metadata_program: accounts.metadata_program,
        metadata_account: accounts.metadata_account,
        mint: accounts.nft_mint,
        mint_authority: accounts.amm_config,
        payer: accounts.payer,
        update_authority: accounts.amm_config,
        name: "Raydium AMM V3 Positions".to_owned(),
        symbol: "".to_owned(),
        uri: "".to_owned(),
        creators,
        seller_fee_basis_points: 0,
        update_authority_is_signer: true,
        is_mutable: false,
        signer_seed,
        revoke_mint_authority_of: accounts.nft_mint,
    }
}

} // verus!
