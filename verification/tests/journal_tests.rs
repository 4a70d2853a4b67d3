use risc0_zkvm::{FakeReceipt, InnerReceipt, Receipt, ReceiptClaim};
use zk_img::codec::encode_png;
use zk_img::journal::{
    check_composition_journal, check_composition_receipt, check_transformation_journal,
    check_transformation_receipt, journal_output, read_chained_receipt, read_initial_receipt,
    ReceiptError,
};
use zk_img::raster::{Channels, Depth, Image};

const GUEST: [u32; 8] = [1, 2, 3, 4, 5, 6, 7, 8];
const OTHER: [u32; 8] = [9, 9, 9, 9, 9, 9, 9, 9];

fn names(v: &[&str]) -> Vec<String> {
    v.iter().map(|s| s.to_string()).collect()
}

fn bytes(words: Vec<u32>) -> Vec<u8> {
    words.iter().flat_map(|w| w.to_le_bytes()).collect()
}

fn png(c: Channels, s: Vec<u16>) -> Vec<u8> {
    encode_png(&Image::new(1, 1, c, Depth::Eight, s).unwrap()).unwrap()
}

fn single(ts: &[&str], img: &[u8]) -> Vec<u8> {
    bytes(risc0_zkvm::serde::to_vec(&(names(ts), img.to_vec())).unwrap())
}

fn chained(input: &[u8], ts: &[&str], output: &[u8]) -> Vec<u8> {
    bytes(risc0_zkvm::serde::to_vec(&(input.to_vec(), names(ts), output.to_vec())).unwrap())
}

fn receipt_file(journal: Vec<u8>, image_id: [u32; 8]) -> Vec<u8> {
    let claim = ReceiptClaim::ok(image_id, journal.clone());
    let receipt = Receipt::new(InnerReceipt::Fake(FakeReceipt::new(claim)), journal);
    bincode::serialize(&receipt).unwrap()
}

#[test]
fn transformation_journal_against_public_image() {
    let gray = png(Channels::Luma, vec![40]);
    let rgb = png(Channels::Rgb, vec![40, 40, 40]);
    let other = png(Channels::Rgb, vec![41, 40, 40]);
    let j = single(&["grayscale", "flipv"], &gray);
    assert_eq!(
        check_transformation_journal(&j, &Some(rgb.clone())),
        Ok((true, names(&["grayscale", "flipv"])))
    );
    assert_eq!(check_transformation_journal(&j, &Some(other)), Ok((false, names(&["grayscale", "flipv"]))));
    assert_eq!(check_transformation_journal(&j, &None), Err(ReceiptError::PublicFileUnreadable));
    assert_eq!(check_transformation_journal(&j, &Some(vec![1, 2])), Err(ReceiptError::PublicImage));
    let bad_image = single(&["fliph"], &[1, 2, 3]);
    assert_eq!(check_transformation_journal(&bad_image, &None), Err(ReceiptError::ReceiptImage));
    let wrong_shape = bytes(risc0_zkvm::serde::to_vec(&(1u32,)).unwrap());
    assert_eq!(check_transformation_journal(&wrong_shape, &Some(rgb.clone())), Err(ReceiptError::JournalUndecodable));
    assert_eq!(check_transformation_journal(&vec![0, 0, 0], &Some(rgb)), Err(ReceiptError::JournalUndecodable));
}

#[test]
fn composition_journals_against_public_image() {
    let rgb = png(Channels::Rgb, vec![40, 40, 40]);
    let stitched = bytes(
        risc0_zkvm::serde::to_vec(&(vec![40u8, 40, 40], 1u32, 1u32, names(&["grayscale"]))).unwrap(),
    );
    let file = Some(rgb.clone());
    assert_eq!(
        check_composition_journal(&stitched, true, "public.png", &file),
        Ok((true, names(&["grayscale"])))
    );
    assert_eq!(check_composition_journal(&stitched, true, "public", &file), Err(ReceiptError::ExpectedImage));
    assert_eq!(check_composition_journal(&stitched, true, "public.png", &None), Err(ReceiptError::ExpectedImage));
    let short = bytes(risc0_zkvm::serde::to_vec(&(vec![40u8, 40], 1u32, 1u32, names(&[]))).unwrap());
    assert_eq!(check_composition_journal(&short, true, "public.png", &file), Err(ReceiptError::RawTooShort));
    let composed = bytes(risc0_zkvm::serde::to_vec(&(rgb.clone(), names(&["fliph", "flipv"]))).unwrap());
    assert_eq!(
        check_composition_journal(&composed, false, "public", &file),
        Ok((true, names(&["fliph", "flipv"])))
    );
    assert_eq!(check_composition_journal(&composed, false, "x", &None), Err(ReceiptError::PublicFileUnreadable));
    assert_eq!(check_composition_journal(&stitched, false, "x", &file), Err(ReceiptError::ReceiptImage));
}

#[test]
fn receipts_are_read_then_verified() {
    let rgb = png(Channels::Rgb, vec![40, 40, 40]);
    let file = Some(rgb.clone());
    assert_eq!(check_transformation_receipt(&vec![1, 2, 3], GUEST, &file), Err(ReceiptError::Unreadable));
    let receipt = receipt_file(single(&["fliph"], &rgb), OTHER);
    assert_eq!(check_transformation_receipt(&receipt, GUEST, &file), Err(ReceiptError::Rejected));
    assert_eq!(check_composition_receipt(&vec![], GUEST, true, "p.png", &file), Err(ReceiptError::Unreadable));
    assert_eq!(check_composition_receipt(&receipt, GUEST, false, "p.png", &file), Err(ReceiptError::Rejected));
}

#[test]
fn run_output_by_journal_shape() {
    let s = single(&["flipv"], &[7, 8]);
    let c = chained(&[1], &["fliph"], &[9, 9]);
    assert_eq!(journal_output(false, &s), Some(vec![7, 8]));
    assert_eq!(journal_output(true, &c), Some(vec![9, 9]));
    assert_eq!(journal_output(false, &vec![1]), None);
}

#[test]
fn chain_receipts_are_read_with_their_journals() {
    let first = receipt_file(single(&["grayscale"], &[5]), GUEST);
    let (_, ts, out) = read_initial_receipt(&first).unwrap();
    assert_eq!((ts, out), (names(&["grayscale"]), vec![5]));
    let next = receipt_file(chained(&[5], &["flipv", "fliph"], &[6]), GUEST);
    let (_, step) = read_chained_receipt(&next).unwrap();
    assert_eq!((step.input, step.transformations, step.output), (vec![5], names(&["flipv", "fliph"]), vec![6]));
    assert!(matches!(read_initial_receipt(&vec![0]), Err(ReceiptError::Unreadable)));
    assert!(matches!(read_chained_receipt(&vec![]), Err(ReceiptError::Unreadable)));
    let wrong = receipt_file(bytes(risc0_zkvm::serde::to_vec(&(3u32,)).unwrap()), GUEST);
    assert!(matches!(read_initial_receipt(&wrong), Err(ReceiptError::JournalUndecodable)));
    assert!(matches!(read_chained_receipt(&wrong), Err(ReceiptError::JournalUndecodable)));
}
