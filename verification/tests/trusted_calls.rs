use sql_lineage::smx::{is_valid_block, parse_mode, Mode, SMXError, SMX};
use sql_lineage::solver::{
    array_9x9_to_string, from_num_list, from_str_line, is_valid_line, string_to_9x9_array,
};

const KEY: &str = "8A3F8665AAEE6F7A0CB8F40B971E3373";

#[test]
fn sm3_digest_of_abc() {
    assert_eq!(
        SMX::sm3_hex("abc".to_string()),
        "66C7F0F462EEEDD9D1F2D46BDC10E4E24167C4875CF2F7A2297DA02B8F4BA8E0"
    );
    assert_eq!(
        SMX::sm3_hex("abcdabcdabcdabcdabcdabcdabcdabcdabcdabcdabcdabcdabcdabcdabcdabcd".to_string()),
        "DEBE9FF92275B8A138604889C18E5A4D6FDB70E5387E5765293DCBA39C0C5732"
    );
}

#[test]
fn sm4_ecb_encrypts_the_known_text() {
    let cipher = SMX::sm4_encrypt(
        "ecb".to_string(),
        "hello world, this is sm4 test!".to_string(),
        KEY.to_string(),
        String::new(),
    )
    .unwrap();
    assert_eq!(cipher, "9AA0BCBF487682AEAF7C640230568083452F4EDE1B8E265CC07A2F8CE07FC2E7");
}

#[test]
fn sm4_cbc_depends_on_the_starting_block() {
    let text = "hello world, this is sm4 test!".to_string();
    let one = SMX::sm4_encrypt("cbc".to_string(), text.clone(), KEY.to_string(), KEY.to_string()).unwrap();
    let other = SMX::sm4_encrypt(
        "cbc".to_string(),
        text.clone(),
        KEY.to_string(),
        "00000000000000000000000000000000".to_string(),
    )
    .unwrap();
    assert_eq!(one.len(), 64);
    let known = SMX::sm4_encrypt(
        "cbc".to_string(),
        text.clone(),
        KEY.to_string(),
        "88BA27B390F466ABE7C4327E1E60270B".to_string(),
    )
    .unwrap();
    assert_eq!(known, "92662AD8A11D165EEF617AE3EDC4F9D4012A4C3CE7F42B15F26D1DA404CD97E0");
    assert_ne!(one, other);
    assert_ne!(one, text);
    let ecb = SMX::sm4_encrypt("ecb".to_string(), text, KEY.to_string(), String::new()).unwrap();
    assert_ne!(one, ecb);
}

#[test]
fn sm4_refuses_other_modes() {
    let r = SMX::sm4_encrypt("ctr".to_string(), "x".to_string(), KEY.to_string(), KEY.to_string());
    assert!(matches!(r, Err(SMXError::InvalidMode)));
    assert_eq!(SMXError::InvalidMode.message(), "Invalid encryption/decryption mode");
    assert_eq!(parse_mode("ecb").unwrap(), Mode::Ecb);
    assert_eq!(parse_mode("cbc").unwrap(), Mode::Cbc);
    assert!(parse_mode("ECB").is_err());
}

#[test]
fn sm4_checks_its_blocks() {
    assert!(is_valid_block(KEY));
    assert!(is_valid_block("8a3f8665aaee6f7a0cb8f40b971e3373"));
    assert!(!is_valid_block("8A3F"));
    assert!(!is_valid_block("8A3F8665AAEE6F7A0CB8F40B971E337G"));
    let bad = SMX::checked_sm4_encrypt("ecb".to_string(), "x".to_string(), "zz".to_string(), String::new());
    assert!(bad.is_none());
    let bad_iv = SMX::checked_sm4_encrypt("cbc".to_string(), "x".to_string(), KEY.to_string(), String::new());
    assert!(bad_iv.is_none());
    let other_mode = SMX::checked_sm4_encrypt("ctr".to_string(), "x".to_string(), "zz".to_string(), String::new());
    assert!(matches!(other_mode, Some(Err(SMXError::InvalidMode))));
    let good = SMX::checked_sm4_encrypt("ecb".to_string(), "x".to_string(), KEY.to_string(), String::new());
    assert!(matches!(good, Some(Ok(_))));
}

const PUZZLE: &str =
    "..3.2.6..9..3.5..1..18.64....81.29..7.......8..67.82....26.95..8..2.3..9..5.1.3..";
const SOLVED: &str =
    "483921657967345821251876493548132976729564138136798245372689514814253769695417382";

#[test]
fn sudoku_line_is_solved() {
    assert_eq!(from_str_line(PUZZLE.to_string()), SOLVED);
    assert_eq!(from_str_line(format!("{} a comment", PUZZLE)), SOLVED);
}

#[test]
fn sudoku_without_unique_solution_gives_nothing() {
    let empty = ".".repeat(81);
    assert_eq!(from_str_line(empty), "");
    let rows = vec![vec![0u32; 9]; 9];
    assert_eq!(from_num_list(rows), Vec::<Vec<u32>>::new());
}

#[test]
fn sudoku_rows_are_solved() {
    let rows = string_to_9x9_array(&PUZZLE.replace('.', "0"));
    assert_eq!(rows.len(), 9);
    assert_eq!(rows[0], vec![0, 0, 3, 0, 2, 0, 6, 0, 0]);
    let solved = from_num_list(rows);
    assert_eq!(array_9x9_to_string(&solved), SOLVED);
    assert_eq!(solved[8], vec![6, 9, 5, 4, 1, 7, 3, 8, 2]);
}

#[test]
fn sudoku_lines_are_checked() {
    assert!(is_valid_line(PUZZLE));
    assert!(is_valid_line(&format!("{};", PUZZLE)));
    assert!(!is_valid_line(&format!("{}1", PUZZLE)));
    assert!(!is_valid_line(&format!("{}x", PUZZLE)));
    assert!(!is_valid_line(&PUZZLE[..80]));
    assert!(!is_valid_line(&PUZZLE.replace('3', "x")));
}

#[test]
fn rows_and_lines_convert_both_ways() {
    assert_eq!(string_to_9x9_array("1234567890123"), vec![vec![1, 2, 3, 4, 5, 6, 7, 8, 9], vec![0, 1, 2, 3]]);
    assert_eq!(string_to_9x9_array(""), Vec::<Vec<u32>>::new());
    assert_eq!(array_9x9_to_string(&vec![vec![1, 2], vec![], vec![9]]), "129");
}
