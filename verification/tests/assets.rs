use binary_options_tools::string_map::StringMap;
use binary_options_tools::types::Asset;
use binary_options_tools::types::AssetType;
use binary_options_tools::types::Assets;
use binary_options_tools::types::CandleLength;

fn asset(id: i32, symbol: &str, name: &str, is_active: bool) -> Asset {
    Asset {
        id,
        symbol: symbol.to_string(),
        name: name.to_string(),
        asset_type: AssetType::Stock,
        payout: 50,
        is_otc: false,
        is_active,
        allowed_candles: vec![CandleLength::new(60)],
    }
}

#[test]
fn test_assets_active_filtering() {
    let mut assets_map = StringMap::new();
    assets_map.insert("AAPL", asset(1, "AAPL", "Apple", true));
    assets_map.insert("GOOGL", asset(2, "GOOGL", "Google", false));
    assets_map.insert("MSFT", asset(3, "MSFT", "Microsoft", true));
    assets_map.insert("AMZN", asset(4, "AMZN", "Amazon", false));
    let assets = Assets(assets_map);

    assert_eq!(assets.active_count(), 2);

    let active_assets: Vec<&Asset> = assets.active_iter();
    assert_eq!(active_assets.len(), 2);
    assert!(active_assets.iter().any(|a| a.symbol == "AAPL"));
    assert!(active_assets.iter().any(|a| a.symbol == "MSFT"));
    assert!(!active_assets.iter().any(|a| a.symbol == "GOOGL"));
    assert!(!active_assets.iter().any(|a| a.symbol == "AMZN"));

    let active_assets_collection = assets.active();
    assert_eq!(active_assets_collection.0.len(), 2);
    assert!(active_assets_collection.get("AAPL").is_some());
    assert!(active_assets_collection.get("MSFT").is_some());
    assert!(active_assets_collection.get("GOOGL").is_none());
    assert!(active_assets_collection.get("AMZN").is_none());

    assert_eq!(assets.0.len(), 4);
}

#[test]
fn test_assets_active_empty() {
    let assets = Assets(StringMap::new());
    assert_eq!(assets.active_count(), 0);
    let active_collection = assets.active();
    assert_eq!(active_collection.0.len(), 0);
}

#[test]
fn test_assets_active_all_active() {
    let mut map = StringMap::new();
    map.insert("TEST", asset(1, "TEST", "Test", true));
    let assets = Assets(map);

    assert_eq!(assets.active_count(), 1);
    let active = assets.active();
    assert_eq!(active.0.len(), 1);
}

#[test]
fn test_assets_active_all_inactive() {
    let mut map = StringMap::new();
    map.insert("TEST", asset(1, "TEST", "Test", false));
    let assets = Assets(map);

    assert_eq!(assets.active_count(), 0);
    let active = assets.active();
    assert_eq!(active.0.len(), 0);
}

#[test]
fn assets_keep_their_contents() {
    let mut map = StringMap::new();
    map.insert("TEST", asset(7, "TEST", "Test", true));
    map.insert("TEST", asset(8, "TEST", "Other", true));
    let assets = Assets(map);
    assert_eq!(assets.names(), vec!["TEST"]);
    let active = assets.active();
    let kept = active.get("TEST").unwrap();
    assert_eq!(kept.id, 8);
    assert_eq!(kept.name, "Other");
    assert_eq!(kept.allowed_candles[0].duration(), 60);
}
