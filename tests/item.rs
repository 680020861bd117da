use bomberman::coordinate::Direction;
use bomberman::error::BombermanError;
use bomberman::item::{get_address, get_value, Item};

#[test]
fn test_get_address_valid_l() {
    assert_eq!(
        get_address("XL", BombermanError::InvalidDeflectionFormat),
        Ok(Direction::Left)
    );
}

#[test]
fn test_get_address_valid_r() {
    assert_eq!(
        get_address("XR", BombermanError::InvalidDeflectionFormat),
        Ok(Direction::Right)
    );
}

#[test]
fn test_get_address_valid_u() {
    assert_eq!(
        get_address("XU", BombermanError::InvalidDeflectionFormat),
        Ok(Direction::Up)
    );
}

#[test]
fn test_get_address_valid_d() {
    assert_eq!(
        get_address("XD", BombermanError::InvalidDeflectionFormat),
        Ok(Direction::Down)
    );
}

#[test]
fn test_get_address_invalid() {
    assert!(get_address("X", BombermanError::InvalidDeflectionFormat).is_err());
}

#[test]
fn test_get_value_valid_enemy() {
    assert_eq!(get_value("F10", BombermanError::InvalidEnemyFormat), Ok(10));
}

#[test]
fn test_get_value_valid_bomb_normal() {
    assert_eq!(
        get_value("B11", BombermanError::InvalidNormalBombFormat),
        Ok(11)
    );
}

#[test]
fn test_get_value_valid_bomb_transfer() {
    assert_eq!(
        get_value("S22", BombermanError::InvalidTransferBombFormat),
        Ok(22)
    );
}

#[test]
fn test_get_value_invalid() {
    assert!(get_value("FXYZ", BombermanError::InvalidEnemyFormat).is_err());
}

#[test]
fn test_new_item_enemy() {
    assert_eq!(Item::new("F123"), Ok(Item::Enemy(123)));
}

#[test]
fn test_new_item_normal_bomb() {
    assert_eq!(Item::new("B10"), Ok(Item::NormalBomb(10)));
}

#[test]
fn test_new_item_transfer_bomb() {
    assert_eq!(Item::new("S11"), Ok(Item::TransferBomb(11)));
}

#[test]
fn test_new_item_deflection() {
    assert_eq!(Item::new("DD"), Ok(Item::Deflection(Direction::Down)));
}

#[test]
fn test_new_item_wall() {
    assert_eq!(Item::new("W"), Ok(Item::Wall));
}

#[test]
fn test_new_item_rock() {
    assert_eq!(Item::new("R"), Ok(Item::Rock));
}

#[test]
fn test_new_item_invalid_1() {
    assert_eq!(Item::new("X"), Err(BombermanError::InvalidItem));
}

#[test]
fn test_new_item_invalid_2() {
    assert_eq!(Item::new(""), Err(BombermanError::InvalidItem));
}

#[test]
fn test_new_item_invalid_3() {
    assert_eq!(Item::new("C183"), Err(BombermanError::InvalidItem));
}

#[test]
fn malformed_tokens_name_their_kind() {
    assert_eq!(Item::new("F"), Err(BombermanError::InvalidItem));
    assert_eq!(Item::new("Fx"), Err(BombermanError::InvalidEnemyFormat));
    assert_eq!(Item::new("B-1"), Err(BombermanError::InvalidNormalBombFormat));
    assert_eq!(Item::new("S1.5"), Err(BombermanError::InvalidTransferBombFormat));
    assert_eq!(Item::new("DX"), Err(BombermanError::InvalidDeflectionFormat));
    assert_eq!(Item::new("DUU"), Err(BombermanError::InvalidDeflectionFormat));
    assert_eq!(Item::new("WW"), Err(BombermanError::InvalidItem));
    assert_eq!(Item::new("_"), Err(BombermanError::InvalidItem));
}

#[test]
fn numbers_must_fit_in_u32() {
    assert_eq!(Item::new("F4294967295"), Ok(Item::Enemy(4294967295)));
    assert_eq!(
        Item::new("F4294967296"),
        Err(BombermanError::InvalidEnemyFormat)
    );
    assert_eq!(Item::new("B007"), Ok(Item::NormalBomb(7)));
    assert_eq!(Item::new("S0"), Ok(Item::TransferBomb(0)));
}

#[test]
fn canonical_tokens() {
    assert_eq!(Item::Enemy(3).to_string(), "F3");
    assert_eq!(Item::NormalBomb(120).to_string(), "B120");
    assert_eq!(Item::TransferBomb(0).to_string(), "S0");
    assert_eq!(Item::Deflection(Direction::Left).to_string(), "DL");
    assert_eq!(Item::Deflection(Direction::Up).to_string(), "DU");
    assert_eq!(Item::Rock.to_string(), "R");
    assert_eq!(Item::Wall.to_string(), "W");
    assert_eq!(Item::Empty.to_string(), "_");
}

#[test]
fn tokens_read_back_to_their_item() {
    let items = vec![
        Item::Enemy(0),
        Item::Enemy(1),
        Item::Enemy(4294967295),
        Item::NormalBomb(2),
        Item::NormalBomb(10),
        Item::TransferBomb(99),
        Item::Deflection(Direction::Up),
        Item::Deflection(Direction::Down),
        Item::Deflection(Direction::Left),
        Item::Deflection(Direction::Right),
        Item::Rock,
        Item::Wall,
    ];
    for item in items {
        assert_eq!(Item::new(&item.to_string()), Ok(item));
    }
}
