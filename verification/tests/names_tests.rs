use zk_img::receipts::classify_receipts;
use zk_img::cli::{composition_verifier_args, has_flag, parse_host_args, transformation_verifier_args};
use zk_img::names::{join, parse_u32, run_file_names_for, to_decimal};
use zk_img::receipts::{lex_le_exec, select_receipts, sort_names};

fn strings(v: &[&str]) -> Vec<String> {
    v.iter().map(|s| s.to_string()).collect()
}

#[test]
fn decimal_representation() {
    assert_eq!(to_decimal(0), "0");
    assert_eq!(to_decimal(7), "7");
    assert_eq!(to_decimal(10), "10");
    assert_eq!(to_decimal(4294967295), "4294967295");
}

#[test]
fn parse_u32_like_std() {
    for s in ["0", "7", "+7", "007", "4294967295", "4294967296", "-1", "+", "", "1a", " 1", "99999999999999999999", "-0"] {
        assert_eq!(parse_u32(s), s.parse::<u32>().ok(), "input {:?}", s);
    }
    for n in [0u32, 1, 9, 10, 12345, u32::MAX] {
        assert_eq!(parse_u32(&to_decimal(n)), Some(n));
    }
}

#[test]
fn joining() {
    assert_eq!(join(&strings(&["grayscale", "flipv"]), " -> "), "grayscale -> flipv");
    assert_eq!(join(&strings(&["a"]), "_"), "a");
    assert_eq!(join(&vec![], "_"), "");
}

#[test]
fn run_file_names() {
    assert_eq!(
        run_file_names_for(&strings(&["grayscale", "flipv"]), None),
        ("receipt_grayscale_flipv.bin".to_string(), "img_grayscale_flipv.png".to_string())
    );
    assert_eq!(
        run_file_names_for(&strings(&["grayscale"]), Some(12)),
        ("receipt_12.bin".to_string(), "image_12.png".to_string())
    );
}

#[test]
fn host_arguments() {
    assert!(parse_host_args(&strings(&["host", "img.png"])).is_none());
    let q = parse_host_args(&strings(&["host", "img.png", "grayscale", "--recursive", "3", "flipv"])).unwrap();
    assert_eq!(q.image_path, "img.png");
    assert_eq!(q.transformations, strings(&["grayscale", "flipv"]));
    assert!(q.recursive);
    assert_eq!(q.recursive_id, Some(3));
    let q = parse_host_args(&strings(&["host", "img.png", "--recursive", "fliph"])).unwrap();
    assert!(q.recursive);
    assert_eq!(q.recursive_id, None);
    assert_eq!(q.transformations, strings(&["fliph"]));
    let q = parse_host_args(&strings(&["host", "img.png", "fliph"])).unwrap();
    assert!(!q.recursive);
    let q = parse_host_args(&strings(&["host", "img.png", "--recursive"])).unwrap();
    assert!(q.recursive && q.transformations.is_empty());
}

#[test]
fn verifier_arguments() {
    assert!(transformation_verifier_args(&strings(&["v", "r.bin"])).is_none());
    assert!(transformation_verifier_args(&strings(&["v", "r.bin", "p.png", "x"])).is_none());
    let a = transformation_verifier_args(&strings(&["v", "r.bin", "p.png"])).unwrap();
    assert_eq!((a.receipt_path.as_str(), a.image_path.as_str(), a.parallel), ("r.bin", "p.png", false));
    assert!(composition_verifier_args(&strings(&["v", "r.bin"])).is_none());
    assert!(composition_verifier_args(&strings(&["v", "a", "b", "c", "d"])).is_none());
    assert!(composition_verifier_args(&strings(&["v", "r.bin", "p.png", "--parallel"])).unwrap().parallel);
    assert!(!composition_verifier_args(&strings(&["v", "r.bin", "p.png"])).unwrap().parallel);
    assert!(has_flag(&strings(&["host", "--parallel"]), "--parallel"));
    assert!(!has_flag(&strings(&["host", "--parallel2"]), "--parallel"));
}

#[test]
fn code_point_order() {
    assert!(lex_le_exec("receipt_10.bin", "receipt_2.bin"));
    assert!(!lex_le_exec("receipt_2.bin", "receipt_10.bin"));
    assert!(lex_le_exec("ab", "abc"));
    assert!(!lex_le_exec("abc", "ab"));
    assert!(lex_le_exec("", ""));
    assert_eq!(
        sort_names(strings(&["c", "a", "b", "a"])),
        strings(&["a", "a", "b", "c"])
    );
}

#[test]
fn receipt_selection() {
    let files = strings(&[
        "receipt_2.bin",
        "receipt_grayscale.bin",
        "notes.txt",
        "receipt_10.bin",
        ".bin",
        "other_1.bin",
        "receipt_1.bin.bak",
        "receipt_flipv.bin",
    ]);
    let r = select_receipts(&files).unwrap();
    assert_eq!(r.initial, Some("receipt_flipv.bin".to_string()));
    assert_eq!(r.recursive, strings(&["other_1.bin", "receipt_10.bin", "receipt_2.bin"]));
    let none = select_receipts(&strings(&["x.png"])).unwrap();
    assert!(none.initial.is_none() && none.recursive.is_empty());
}

#[test]
fn receipt_classification_from_given_matches() {
    let files = strings(&["receipt_b.bin", "z_3.bin", "receipt_a.bin", "a_1.bin", "x.txt"]);
    let r = classify_receipts(&files, &vec![false, true, false, true, true]);
    assert_eq!(r.initial, Some("receipt_a.bin".to_string()));
    assert_eq!(r.recursive, strings(&["a_1.bin", "z_3.bin"]));
}
