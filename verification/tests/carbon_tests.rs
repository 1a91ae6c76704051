use audit_trail::carbon::{AssetError, CarbonAsset, CarbonAssetMetadata, TokenStatus};

fn s(x: &str) -> String {
    x.to_string()
}

fn metadata() -> CarbonAssetMetadata {
    CarbonAssetMetadata {
        project_id: vec![1u8; 32],
        vintage_year: 2024,
        methodology_id: s("methodology-1"),
        geolocation_hash: vec![2u8; 32],
    }
}

fn create_token() -> CarbonAsset {
    let mut asset = CarbonAsset::new();
    asset
        .initialize(s("admin"), s("tracker"), s("Carbon Credit"), s("CC"), 7)
        .unwrap();
    asset.set_regulatory_check(&s("admin"), s("regulatory")).unwrap();
    asset
}

#[test]
fn test_initialize_and_metadata() {
    let asset = create_token();
    assert_eq!(asset.admin(), s("admin"));
    assert_eq!(asset.retirement_tracker(), s("tracker"));
    assert_eq!(asset.name(), s("Carbon Credit"));
    assert_eq!(asset.symbol(), s("CC"));
    assert_eq!(asset.decimals(), 7);
}

#[test]
fn test_mint() {
    let mut asset = create_token();
    let user = s("user");

    asset.mint(&s("admin"), &user, 1000, 1, metadata()).unwrap();

    assert_eq!(asset.balance(&user, 1), 1000);
    assert_eq!(asset.get_status(1), Some(TokenStatus::Issued));
    let stored = asset.get_metadata(1).unwrap();
    assert_eq!(stored.vintage_year, 2024);
    assert_eq!(stored.project_id, vec![1u8; 32]);
}

#[test]
fn test_transfer_issued() {
    let mut asset = create_token();
    let user1 = s("user1");
    let user2 = s("user2");

    asset.mint(&s("admin"), &user1, 1000, 1, metadata()).unwrap();
    asset.transfer(&user1, &user2, 200, 1, true).unwrap();

    assert_eq!(asset.balance(&user1, 1), 800);
    assert_eq!(asset.balance(&user2, 1), 200);
}

#[test]
fn test_retirement() {
    let mut asset = create_token();
    let user = s("user");
    let tracker = s("tracker");

    asset.mint(&s("admin"), &user, 1000, 1, metadata()).unwrap();
    asset.transfer(&user, &tracker, 100, 1, true).unwrap();

    assert_eq!(asset.balance(&user, 1), 900);
    assert_eq!(asset.balance(&tracker, 1), 100);
    assert_eq!(asset.get_status(1), Some(TokenStatus::Retired));
}

#[test]
fn test_burn() {
    let mut asset = create_token();
    let user = s("user");
    let tracker = s("tracker");

    asset.mint(&s("admin"), &user, 1000, 1, metadata()).unwrap();
    asset.transfer(&user, &tracker, 100, 1, true).unwrap();
    assert_eq!(asset.balance(&tracker, 1), 100);

    asset.burn(&tracker, &tracker, 50, 1).unwrap();

    assert_eq!(asset.balance(&tracker, 1), 50);
}

#[test]
fn test_quality_score() {
    let mut asset = create_token();
    let user = s("user");

    asset.mint(&s("admin"), &user, 1000, 1, metadata()).unwrap();
    assert_eq!(asset.get_quality_score(1), Some(100));

    asset.update_quality_score(&s("admin"), 1, 99).unwrap();
    assert_eq!(asset.get_quality_score(1), Some(99));
}

#[test]
fn carbon_initialize_is_once_only() {
    let mut asset = create_token();
    assert_eq!(
        asset.initialize(s("other"), s("tracker"), s("X"), s("X"), 7),
        Err(AssetError::AlreadyInitialized)
    );
}

#[test]
fn mint_rejections() {
    let mut asset = create_token();
    let user = s("user");

    assert_eq!(
        asset.mint(&user, &user, 1000, 1, metadata()),
        Err(AssetError::NotAuthorized)
    );
    assert_eq!(
        asset.mint(&s("admin"), &user, 0, 1, metadata()),
        Err(AssetError::AmountNotPositive)
    );
    asset.mint(&s("admin"), &user, 1000, 1, metadata()).unwrap();
    assert_eq!(
        asset.mint(&s("admin"), &user, 1000, 1, metadata()),
        Err(AssetError::TokenAlreadyExists)
    );
}

#[test]
fn transfer_rejections() {
    let mut asset = create_token();
    let user1 = s("user1");
    let user2 = s("user2");

    assert_eq!(
        asset.transfer(&user1, &user2, 0, 1, true),
        Err(AssetError::AmountNotPositive)
    );
    assert_eq!(
        asset.transfer(&user1, &user2, 10, 1, true),
        Err(AssetError::TokenNotFound)
    );

    asset.mint(&s("admin"), &user1, 1000, 1, metadata()).unwrap();
    assert_eq!(
        asset.transfer(&user1, &user2, 10, 1, false),
        Err(AssetError::RegulatoryRejected)
    );
    assert_eq!(
        asset.transfer(&user1, &user2, 2000, 1, true),
        Err(AssetError::InsufficientBalance)
    );

    asset.update_status(&s("admin"), 1, TokenStatus::Locked).unwrap();
    assert_eq!(
        asset.transfer(&user1, &user2, 10, 1, true),
        Err(AssetError::TokenLocked)
    );

    asset.update_status(&s("admin"), 1, TokenStatus::Invalidated).unwrap();
    assert_eq!(
        asset.transfer(&user1, &user2, 10, 1, true),
        Err(AssetError::TokenFrozen)
    );
}

#[test]
fn burn_rejections() {
    let mut asset = create_token();
    let user = s("user");
    let tracker = s("tracker");

    asset.mint(&s("admin"), &user, 1000, 1, metadata()).unwrap();

    assert_eq!(
        asset.burn(&user, &user, 10, 1),
        Err(AssetError::NotAuthorized)
    );
    assert_eq!(
        asset.burn(&tracker, &tracker, 10, 1),
        Err(AssetError::InsufficientBalance)
    );
    assert_eq!(
        asset.burn(&tracker, &user, -5, 1),
        Err(AssetError::AmountNotPositive)
    );
    assert_eq!(
        asset.burn(&tracker, &user, 10, 2),
        Err(AssetError::InsufficientBalance)
    );
}

#[test]
fn update_rejections() {
    let mut asset = create_token();
    assert_eq!(
        asset.update_status(&s("nobody"), 1, TokenStatus::Listed),
        Err(AssetError::NotAuthorized)
    );
    assert_eq!(
        asset.update_status(&s("admin"), 1, TokenStatus::Listed),
        Err(AssetError::TokenNotFound)
    );
    assert_eq!(
        asset.update_quality_score(&s("admin"), 1, 5),
        Err(AssetError::TokenNotFound)
    );
}

#[test]
fn listed_tokens_still_transfer() {
    let mut asset = create_token();
    let user1 = s("user1");
    let user2 = s("user2");

    asset.mint(&s("admin"), &user1, 500, 1, metadata()).unwrap();
    asset.update_status(&s("admin"), 1, TokenStatus::Listed).unwrap();
    asset.transfer(&user1, &user2, 500, 1, true).unwrap();
    assert_eq!(asset.balance(&user1, 1), 0);
    assert_eq!(asset.balance(&user2, 1), 500);
}

#[test]
fn self_transfer_keeps_the_balance() {
    let mut asset = create_token();
    let user = s("user");

    asset.mint(&s("admin"), &user, 300, 1, metadata()).unwrap();
    asset.transfer(&user, &user, 100, 1, true).unwrap();
    assert_eq!(asset.balance(&user, 1), 300);
}
