//! Receipts and their journals: reading a receipt file, checking it against
//! the guest it claims to prove, decoding what its journal records, and the
//! checks the verifier programs make of a receipt against a public image.
use vstd::prelude::*;
use crate::chain::ChainStep;
use crate::codec::{
    encoded_images_match, file_view, image_comparison, raw_comparison, raw_rgb_matches,
    CompareError, RawCompareError,
};
use crate::transform::string_views;
use risc0_zkvm::Receipt;

verus! {

#[verifier::external_type_specification]
#[verifier::external_body]
pub struct ExReceipt(risc0_zkvm::Receipt);

/// The journal bytes of the receipt that `file` holds, as bincode reads it.
pub uninterp spec fn receipt_journal(file: Seq<u8>) -> Option<Seq<u8>>;

/// Calls `bincode::deserialize` for a `risc0_zkvm::Receipt` on the file's
/// bytes and hands back the receipt with its journal bytes. Claimed: the
/// journal is the named `receipt_journal` of the bytes; `None` exactly when
/// it is `None`, that is when deserialization fails. Nothing is claimed of
/// the rest of the receipt.
#[verifier::external_body]
fn read_receipt(file: &[u8]) -> (r: Option<(Receipt, Vec<u8>)>)
    ensures
        match r {
            Some((_, journal)) => receipt_journal(file@) == Some(journal@),
            None => receipt_journal(file@) is None,
        },
{
    let receipt: Receipt = bincode::deserialize(file).ok()?;
    let journal = receipt.journal.bytes.clone();
    Some((receipt, journal))
}

/// Whether the receipt that `file` holds verifies against the guest with
/// `image_id` in some environment of the process (development mode decides
/// whether receipts made without a proof are accepted).
pub uninterp spec fn receipt_accepted(file: Seq<u8>, image_id: Seq<u32>) -> bool;

/// Reads the receipt from the file's bytes with `bincode::deserialize` and
/// calls `Receipt::verify` on it with the guest's image id. Claimed: when it
/// succeeds, the file holds a receipt (`receipt_journal` is `Some`) and the
/// receipt is accepted for that image id (the named `receipt_accepted`).
/// Nothing is claimed of a failure: the answer rests on the receipt's proof
/// and, for receipts made in development mode, on the process's environment.
#[verifier::external_body]
fn verify_receipt(file: &[u8], image_id: [u32; 8]) -> (ok: bool)
    ensures
        ok ==> receipt_journal(file@) is Some && receipt_accepted(file@, image_id@),
{
    match bincode::deserialize::<Receipt>(file) {
        Ok(receipt) => receipt.verify(image_id).is_ok(),
        Err(_) => false,
    }
}

/// What a run's journal records when the run starts a chain or stands
/// alone: its transformations and output image.
pub uninterp spec fn single_journal(journal: Seq<u8>) -> Option<(Seq<Seq<char>>, Seq<u8>)>;

/// What a run's journal records when the run continues a chain: its input
/// image, transformations and output image.
pub uninterp spec fn chained_journal(journal: Seq<u8>) -> Option<(Seq<u8>, Seq<Seq<char>>, Seq<u8>)>;

/// What a composition's journal records after following a chain: the final
/// image and all transformations.
pub uninterp spec fn composed_journal(journal: Seq<u8>) -> Option<(Seq<u8>, Seq<Seq<char>>)>;

/// What a composition's journal records after stitching strips: the raw
/// 8-bit RGB samples, width, height and the merged transformations.
pub uninterp spec fn stitched_journal(journal: Seq<u8>) -> Option<
    (Seq<u8>, u32, u32, Seq<Seq<char>>),
>;

/// Calls `risc0_zkvm::serde::from_slice` (which `Journal::decode` calls) for
/// a `(Vec<String>, Vec<u8>)`. Claimed: the result is the named
/// `single_journal` of the bytes. The journal must be whole words: on other
/// lengths the call can panic.
#[verifier::external_body]
fn decode_single_journal(journal: &[u8]) -> (r: Option<(Vec<String>, Vec<u8>)>)
    requires
        journal@.len() % 4 == 0,
    ensures
        match r {
            Some((t, img)) => single_journal(journal@) == Some((string_views(t@), img@)),
            None => single_journal(journal@) is None,
        },
{
    risc0_zkvm::serde::from_slice(journal).ok()
}

/// Calls `risc0_zkvm::serde::from_slice` for a `(Vec<u8>, Vec<String>,
/// Vec<u8>)`. Claimed: the result is the named `chained_journal` of the
/// bytes. The journal must be whole words: on other lengths the call can
/// panic.
#[verifier::external_body]
fn decode_chained_journal(journal: &[u8]) -> (r: Option<(Vec<u8>, Vec<String>, Vec<u8>)>)
    requires
        journal@.len() % 4 == 0,
    ensures
        match r {
            Some((i, t, o)) => chained_journal(journal@) == Some((i@, string_views(t@), o@)),
            None => chained_journal(journal@) is None,
        },
{
    risc0_zkvm::serde::from_slice(journal).ok()
}

/// Calls `risc0_zkvm::serde::from_slice` for a `(Vec<u8>, Vec<String>)`.
/// Claimed: the result is the named `composed_journal` of the bytes. The
/// journal must be whole words: on other lengths the call can panic.
#[verifier::external_body]
fn decode_composed_journal(journal: &[u8]) -> (r: Option<(Vec<u8>, Vec<String>)>)
    requires
        journal@.len() % 4 == 0,
    ensures
        match r {
            Some((img, t)) => composed_journal(journal@) == Some((img@, string_views(t@))),
            None => composed_journal(journal@) is None,
        },
{
    risc0_zkvm::serde::from_slice(journal).ok()
}

/// Calls `risc0_zkvm::serde::from_slice` for a `(Vec<u8>, u32, u32,
/// Vec<String>)`. Claimed: the result is the named `stitched_journal` of the
/// bytes. The journal must be whole words: on other lengths the call can
/// panic.
#[verifier::external_body]
fn decode_stitched_journal(journal: &[u8]) -> (r: Option<(Vec<u8>, u32, u32, Vec<String>)>)
    requires
        journal@.len() % 4 == 0,
    ensures
        match r {
            Some((raw, w, h, t)) => stitched_journal(journal@) == Some(
                (raw@, w, h, string_views(t@)),
            ),
            None => stitched_journal(journal@) is None,
        },
{
    risc0_zkvm::serde::from_slice(journal).ok()
}

/// Why a receipt could not be read or checked.
#[derive(Clone, Copy, Debug, PartialEq, Eq, Structural)]
pub enum ReceiptError {
    /// The file does not hold a receipt.
    Unreadable,
    /// The receipt does not verify against the guest's image id.
    Rejected,
    /// The journal does not decode to what the guest commits.
    JournalUndecodable,
    /// The image that the journal records does not decode.
    ReceiptImage,
    /// The public image file could not be read.
    PublicFileUnreadable,
    /// The public image does not decode.
    PublicImage,
    /// The journal's raw samples hold fewer than `width * height` RGB pixels.
    RawTooShort,
    /// The expected image file could not be read, or does not decode as the
    /// format its extension names.
    ExpectedImage,
}

/// A journal is whole 32-bit words.
pub open spec fn whole_words(journal: Seq<u8>) -> bool {
    journal.len() % 4 == 0
}

/// The error of an image comparison, as a receipt error.
pub open spec fn compare_error(e: CompareError) -> ReceiptError {
    match e {
        CompareError::ReceiptImage => ReceiptError::ReceiptImage,
        CompareError::PublicFileUnreadable => ReceiptError::PublicFileUnreadable,
        CompareError::PublicImage => ReceiptError::PublicImage,
    }
}

/// The error of a raw-sample comparison, as a receipt error.
pub open spec fn raw_error(e: RawCompareError) -> ReceiptError {
    match e {
        RawCompareError::RawTooShort => ReceiptError::RawTooShort,
        RawCompareError::ExpectedImage => ReceiptError::ExpectedImage,
    }
}

/// A check's outcome as mathematical values.
pub open spec fn outcome_view(r: Result<(bool, Vec<String>), ReceiptError>) -> Result<
    (bool, Seq<Seq<char>>),
    ReceiptError,
> {
    match r {
        Ok((same, t)) => Ok((same, string_views(t@))),
        Err(e) => Err(e),
    }
}

/// What checking a verified run's journal against the public image file
/// gives: the journal decodes to the run's transformations and image, that
/// image is compared with the public one, and the transformations are
/// handed back.
pub open spec fn transformation_outcome(journal: Seq<u8>, public_file: Option<Seq<u8>>) -> Result<
    (bool, Seq<Seq<char>>),
    ReceiptError,
> {
    if !whole_words(journal) {
        Err(ReceiptError::JournalUndecodable)
    } else {
        match single_journal(journal) {
            None => Err(ReceiptError::JournalUndecodable),
            Some((t, png)) => match image_comparison(png, public_file) {
                Ok(same) => Ok((same, t)),
                Err(e) => Err(compare_error(e)),
            },
        }
    }
}

/// What checking a verified composition's journal against the public image
/// file gives. After stitching, the journal's raw samples are compared with
/// the image that the file decodes to as the format its extension names;
/// after a chain, the journal's image is compared with the public image.
/// The transformations are handed back.
pub open spec fn composition_outcome(
    journal: Seq<u8>,
    parallel: bool,
    public_path: Seq<char>,
    public_file: Option<Seq<u8>>,
) -> Result<(bool, Seq<Seq<char>>), ReceiptError> {
    if !whole_words(journal) {
        Err(ReceiptError::JournalUndecodable)
    } else if parallel {
        match stitched_journal(journal) {
            None => Err(ReceiptError::JournalUndecodable),
            Some((raw, w, h, t)) => match raw_comparison(raw, w, h, public_path, public_file) {
                Ok(same) => Ok((same, t)),
                Err(e) => Err(raw_error(e)),
            },
        }
    } else {
        match composed_journal(journal) {
            None => Err(ReceiptError::JournalUndecodable),
            Some((png, t)) => match image_comparison(png, public_file) {
                Ok(same) => Ok((same, t)),
                Err(e) => Err(compare_error(e)),
            },
        }
    }
}

fn from_compare_error(e: CompareError) -> (r: ReceiptError)
    ensures
        r == compare_error(e),
{
    match e {
        CompareError::ReceiptImage => ReceiptError::ReceiptImage,
        CompareError::PublicFileUnreadable => ReceiptError::PublicFileUnreadable,
        CompareError::PublicImage => ReceiptError::PublicImage,
    }
}

fn from_raw_error(e: RawCompareError) -> (r: ReceiptError)
    ensures
        r == raw_error(e),
{
    match e {
        RawCompareError::RawTooShort => ReceiptError::RawTooShort,
        RawCompareError::ExpectedImage => ReceiptError::ExpectedImage,
    }
}

/// Checks a verified run's journal against the public image file (`None`
/// when it could not be read): decodes the journal, compares the image it
/// records with the public one as 8-bit RGBA, and hands back the result with
/// the run's transformations.
pub fn check_transformation_journal(journal: &Vec<u8>, public_file: &Option<Vec<u8>>) -> (r: Result<
    (bool, Vec<String>),
    ReceiptError,
>)
    ensures
        outcome_view(r) == transformation_outcome(journal@, file_view(public_file)),
{
    if journal.len() % 4 != 0 {
        return Err(ReceiptError::JournalUndecodable);
    }
    match decode_single_journal(journal.as_slice()) {
        None => Err(ReceiptError::JournalUndecodable),
        Some((t, png)) => match encoded_images_match(&png, public_file) {
            Ok(same) => Ok((same, t)),
            Err(e) => Err(from_compare_error(e)),
        },
    }
}

/// Checks a verified composition's journal against the public image at
/// `public_path`, given the file's contents (`None` when it could not be
/// read): after stitching (`parallel`), compares the journal's raw samples
/// with the image the file decodes to as the format its extension names;
/// after a chain, compares the journal's image with the public one. Hands
/// back the result with the recorded transformations.
pub fn check_composition_journal(
    journal: &Vec<u8>,
    parallel: bool,
    public_path: &str,
    public_file: &Option<Vec<u8>>,
) -> (r: Result<(bool, Vec<String>), ReceiptError>)
    ensures
        outcome_view(r) == composition_outcome(
            journal@,
            parallel,
            public_path@,
            file_view(public_file),
        ),
{
    if journal.len() % 4 != 0 {
        return Err(ReceiptError::JournalUndecodable);
    }
    if parallel {
        match decode_stitched_journal(journal.as_slice()) {
            None => Err(ReceiptError::JournalUndecodable),
            Some((raw, w, h, t)) => match raw_rgb_matches(&raw, w, h, public_path, public_file) {
                Ok(same) => Ok((same, t)),
                Err(e) => Err(from_raw_error(e)),
            },
        }
    } else {
        match decode_composed_journal(journal.as_slice()) {
            None => Err(ReceiptError::JournalUndecodable),
            Some((png, t)) => match encoded_images_match(&png, public_file) {
                Ok(same) => Ok((same, t)),
                Err(e) => Err(from_compare_error(e)),
            },
        }
    }
}

/// Reads the receipt of one run from its file, verifies it against the
/// guest's image id, and checks its journal against the public image file
/// (`None` when it could not be read), as `check_transformation_journal`
/// does. Whether the receipt verifies is the proof system's answer; any
/// result past that step means it was accepted for `image_id`.
pub fn check_transformation_receipt(
    receipt_file: &Vec<u8>,
    image_id: [u32; 8],
    public_file: &Option<Vec<u8>>,
) -> (r: Result<(bool, Vec<String>), ReceiptError>)
    ensures
        r == Err::<(bool, Vec<String>), ReceiptError>(ReceiptError::Unreadable) <==> receipt_journal(
            receipt_file@,
        ) is None,
        !(r matches Err(ReceiptError::Rejected) || r matches Err(ReceiptError::Unreadable))
            ==> receipt_accepted(receipt_file@, image_id@),
        r matches Err(ReceiptError::Rejected) || r matches Err(ReceiptError::Unreadable) || (
        receipt_journal(receipt_file@) matches Some(j) && outcome_view(r) == transformation_outcome(
            j,
            file_view(public_file),
        )),
{
    let journal = match read_receipt(receipt_file.as_slice()) {
        Some((_, journal)) => journal,
        None => {
            return Err(ReceiptError::Unreadable);
        },
    };
    if !verify_receipt(receipt_file.as_slice(), image_id) {
        return Err(ReceiptError::Rejected);
    }
    check_transformation_journal(&journal, public_file)
}

/// Reads a composition's receipt from its file, verifies it against the
/// composition guest's image id, and checks its journal against the public
/// image, as `check_composition_journal` does. Whether the receipt verifies
/// is the proof system's answer; any result past that step means it was
/// accepted for `image_id`.
pub fn check_composition_receipt(
    receipt_file: &Vec<u8>,
    image_id: [u32; 8],
    parallel: bool,
    public_path: &str,
    public_file: &Option<Vec<u8>>,
) -> (r: Result<(bool, Vec<String>), ReceiptError>)
    ensures
        r == Err::<(bool, Vec<String>), ReceiptError>(ReceiptError::Unreadable) <==> receipt_journal(
            receipt_file@,
        ) is None,
        !(r matches Err(ReceiptError::Rejected) || r matches Err(ReceiptError::Unreadable))
            ==> receipt_accepted(receipt_file@, image_id@),
        r matches Err(ReceiptError::Rejected) || r matches Err(ReceiptError::Unreadable) || (
        receipt_journal(receipt_file@) matches Some(j) && outcome_view(r) == composition_outcome(
            j,
            parallel,
            public_path@,
            file_view(public_file),
        )),
{
    let journal = match read_receipt(receipt_file.as_slice()) {
        Some((_, journal)) => journal,
        None => {
            return Err(ReceiptError::Unreadable);
        },
    };
    if !verify_receipt(receipt_file.as_slice(), image_id) {
        return Err(ReceiptError::Rejected);
    }
    check_composition_journal(&journal, parallel, public_path, public_file)
}

/// The output image that a run's journal records: a chained run's journal
/// holds its input, transformations and output; another run's, its
/// transformations and output.
pub open spec fn run_output(chained: bool, journal: Seq<u8>) -> Option<Seq<u8>> {
    if !whole_words(journal) {
        None
    } else if chained {
        match chained_journal(journal) {
            Some((_, _, o)) => Some(o),
            None => None,
        }
    } else {
        match single_journal(journal) {
            Some((_, o)) => Some(o),
            None => None,
        }
    }
}

/// The output image that a run's journal records, read by the shape that
/// the run commits (`chained` when it continues a chain).
pub fn journal_output(chained: bool, journal: &Vec<u8>) -> (r: Option<Vec<u8>>)
    ensures
        match r {
            Some(o) => run_output(chained, journal@) == Some(o@),
            None => run_output(chained, journal@) is None,
        },
{
    if journal.len() % 4 != 0 {
        return None;
    }
    if chained {
        match decode_chained_journal(journal.as_slice()) {
            Some((_, _, o)) => Some(o),
            None => None,
        }
    } else {
        match decode_single_journal(journal.as_slice()) {
            Some((_, o)) => Some(o),
            None => None,
        }
    }
}

/// Reads the receipt that starts a chain from its file, and what its journal
/// records: the run's transformations and output image. The receipt is
/// handed back to be added as an assumption of the composition.
pub fn read_initial_receipt(file: &Vec<u8>) -> (r: Result<
    (Receipt, Vec<String>, Vec<u8>),
    ReceiptError,
>)
    ensures
        match r {
            Ok((_, t, o)) => receipt_journal(file@) matches Some(j) && whole_words(j)
                && single_journal(j) == Some((string_views(t@), o@)),
            Err(ReceiptError::Unreadable) => receipt_journal(file@) is None,
            Err(ReceiptError::JournalUndecodable) => receipt_journal(file@) matches Some(j) && !(
            whole_words(j) && single_journal(j) is Some),
            Err(_) => false,
        },
{
    let (receipt, journal) = match read_receipt(file.as_slice()) {
        Some(read) => read,
        None => {
            return Err(ReceiptError::Unreadable);
        },
    };
    if journal.len() % 4 != 0 {
        return Err(ReceiptError::JournalUndecodable);
    }
    match decode_single_journal(journal.as_slice()) {
        Some((t, o)) => Ok((receipt, t, o)),
        None => Err(ReceiptError::JournalUndecodable),
    }
}

/// Reads the receipt of a run that continues a chain from its file, and the
/// step its journal records: input image, transformations and output image.
/// The receipt is handed back to be added as an assumption of the
/// composition.
pub fn read_chained_receipt(file: &Vec<u8>) -> (r: Result<(Receipt, ChainStep), ReceiptError>)
    ensures
        match r {
            Ok((_, step)) => receipt_journal(file@) matches Some(j) && whole_words(j)
                && chained_journal(j) == Some(
                (step@.input, step@.transformations, step@.output),
            ),
            Err(ReceiptError::Unreadable) => receipt_journal(file@) is None,
            Err(ReceiptError::JournalUndecodable) => receipt_journal(file@) matches Some(j) && !(
            whole_words(j) && chained_journal(j) is Some),
            Err(_) => false,
        },
{
    let (receipt, journal) = match read_receipt(file.as_slice()) {
        Some(read) => read,
        None => {
            return Err(ReceiptError::Unreadable);
        },
    };
    if journal.len() % 4 != 0 {
        return Err(ReceiptError::JournalUndecodable);
    }
    match decode_chained_journal(journal.as_slice()) {
        Some((input, transformations, output)) => Ok(
            (receipt, ChainStep { input, transformations, output }),
        ),
        None => Err(ReceiptError::JournalUndecodable),
    }
}

} // verus!
