use bomberman::config::{get_coordinate, Config};
use bomberman::error::BombermanError;

#[test]
fn test_valid_coordinate() {
    let input = "10".to_string();
    let result = get_coordinate(&input);
    assert_eq!(result, Ok(10));
}

#[test]
fn test_invalid_coordinate() {
    let input = "abc".to_string();
    let result = get_coordinate(&input);
    assert_eq!(result, Err(BombermanError::InvalidCoordinate));
}

fn args(v: &[&str]) -> Vec<String> {
    v.iter().map(|s| s.to_string()).collect()
}

#[test]
fn config_reads_four_arguments() {
    let conf = Config::new(&args(&["prog", "board.txt", "out/", "4", "2"])).unwrap();
    assert_eq!(conf.name_input, "board.txt");
    assert_eq!(conf.path_output, "out/board.txt");
    assert_eq!(conf.x, 4);
    assert_eq!(conf.y, 2);
}

#[test]
fn config_needs_exactly_four_arguments() {
    let r = Config::new(&args(&["prog", "board.txt", "out/", "4"]));
    assert_eq!(r.unwrap_err(), BombermanError::InsufficientInput);
    let r = Config::new(&args(&["prog", "board.txt", "out/", "4", "2", "x"]));
    assert_eq!(r.unwrap_err(), BombermanError::InsufficientInput);
}

#[test]
fn config_rejects_non_numeric_coordinates() {
    let r = Config::new(&args(&["prog", "board.txt", "out/", "4", "y"]));
    assert_eq!(r.unwrap_err(), BombermanError::InvalidCoordinate);
    let r = Config::new(&args(&["prog", "board.txt", "out/", "-1", "2"]));
    assert_eq!(r.unwrap_err(), BombermanError::InvalidCoordinate);
    assert_eq!(get_coordinate(&"".to_string()), Err(BombermanError::InvalidCoordinate));
}

#[test]
fn error_messages() {
    assert_eq!(
        BombermanError::InvalidBombCoordinate.message(),
        "En la coordenada proporcionada no se encontro una bomba"
    );
    assert_eq!(
        BombermanError::NonSquareBoardError.message(),
        "El tablero no es cuadrado"
    );
}
