//! The report of the piece-commitment tool.

use crate::error::Field;
use crate::lines::{
    after_first, field_at, lemma_after_first, lemma_first_line, lemma_labelled_line, lines,
    text_at, Lines,
};
use crate::number::{
    decimal, lemma_decimal_is_value, lemma_decimal_round_trip, parse_usize, usize_of,
};
use crate::text::{is_value, lemma_labelled_is_value, lemma_labelled_value};
use vstd::prelude::*;
use vstd::utf8::encode_utf8;

verus! {

/// What the piece-commitment tool computed over some content.
#[derive(Debug)]
pub struct CommitmentResult {
    commp_cid: String,
    piece_size: usize,
    car_file_size: usize,
}

/// A [`CommitmentResult`] as plain values.
pub struct CommitmentView {
    pub commp_cid: Seq<char>,
    pub piece_size: nat,
    pub car_file_size: nat,
}

impl View for CommitmentResult {
    type V = CommitmentView;

    closed spec fn view(&self) -> CommitmentView {
        CommitmentView {
            commp_cid: self.commp_cid@,
            piece_size: self.piece_size as nat,
            car_file_size: self.car_file_size as nat,
        }
    }
}

/// What stands before the commitment identifier in its line.
pub open spec fn commp_cid_label() -> Seq<char> {
    "CommP CID: "@
}

/// What stands before the piece size in its line.
pub open spec fn piece_size_label() -> Seq<char> {
    "Piece size: "@
}

/// What stands before the size of the content in its line.
pub open spec fn car_file_size_label() -> Seq<char> {
    "Car file size: "@
}

/// The size that `text` writes: a `usize` above zero.
pub open spec fn written_size(text: Seq<char>) -> Option<usize> {
    match usize_of(text) {
        Some(n) => if n > 0 {
            Some(n)
        } else {
            None
        },
        None => None,
    }
}

/// The size that line `i` carries under the template `prefix{}`.
pub open spec fn size_at(prefix: Seq<char>, lines: Seq<Seq<u8>>, i: int) -> Option<usize> {
    match field_at(prefix, lines, i) {
        Some(v) => written_size(v),
        None => None,
    }
}

/// Whether line `i` of a commitment report is as the report's layout asks. The
/// report has three lines, and what follows them is not read. They carry, under
/// their labels, the commitment identifier, the piece size and the size of the
/// content.
pub open spec fn commitment_line_ok(lines: Seq<Seq<u8>>, i: int) -> bool {
    if i == 0 {
        field_at(commp_cid_label(), lines, 0) is Some
    } else if i == 1 {
        size_at(piece_size_label(), lines, 1) is Some
    } else if i == 2 {
        size_at(car_file_size_label(), lines, 2) is Some
    } else {
        true
    }
}

/// The field that line `i` of a commitment report stands for.
pub open spec fn commitment_line_field(i: int) -> Field {
    if i == 0 {
        Field::CommpCid
    } else if i == 1 {
        Field::PieceSize
    } else {
        Field::CarFileSize
    }
}

/// The first of the lines `from..3` of a commitment report that is not as the
/// layout asks.
pub open spec fn commitment_fault_from(lines: Seq<Seq<u8>>, from: int) -> Option<int>
    decreases 3 - from,
{
    if from >= 3 {
        None
    } else if !commitment_line_ok(lines, from) {
        Some(from)
    } else {
        commitment_fault_from(lines, from + 1)
    }
}

/// What a commitment report says: the values of its three lines, or the field
/// of the first line that is not as the layout asks.
pub open spec fn commitment_of(lines: Seq<Seq<u8>>) -> Result<CommitmentView, Field> {
    match commitment_fault_from(lines, 0) {
        Some(i) => Err(commitment_line_field(i)),
        None => Ok(
            CommitmentView {
                commp_cid: field_at(commp_cid_label(), lines, 0)->0,
                piece_size: size_at(piece_size_label(), lines, 1)->0 as nat,
                car_file_size: size_at(car_file_size_label(), lines, 2)->0 as nat,
            },
        ),
    }
}

/// A report with a line that is not as the layout asks is not read: the
/// result is an error, whichever of the three lines it is and whatever is
/// wrong with it. A line is not as the layout asks when it is missing or is
/// not text, when it does not start with its label, as when two lines changed
/// places, when nothing follows the label, and when what follows is no number
/// above zero where a size is due.
pub proof fn lemma_malformed_commitment_line(stdout: Seq<u8>, i: int)
    requires
        0 <= i < 3,
        !commitment_line_ok(lines(stdout), i),
    ensures
        commitment_of(lines(stdout)) is Err,
{
    reveal_with_fuel(commitment_fault_from, 4);
}

/// A report is read exactly when each of its three lines is as the layout
/// asks. What is read is whole: the identifier is not empty, has no white
/// space at either end and stays on one line, and the sizes are above zero.
pub proof fn lemma_commitment_read(stdout: Seq<u8>)
    ensures
        commitment_of(lines(stdout)) is Ok <==> (forall|i: int|
            0 <= i < 3 ==> commitment_line_ok(lines(stdout), i)),
        commitment_of(lines(stdout)) matches Ok(c) ==> is_value(c.commp_cid) && c.piece_size > 0
            && c.car_file_size > 0,
{
    reveal_with_fuel(commitment_fault_from, 4);
    if commitment_of(lines(stdout)) is Err {
        let k = commitment_fault_from(lines(stdout), 0)->0;
        assert(!commitment_line_ok(lines(stdout), k));
    } else {
        lemma_labelled_is_value(commp_cid_label(), text_at(lines(stdout), 0)->0);
    }
}

/// The text of the report on a commitment: three lines, each ended with a
/// line feed, that carry the commitment identifier, the piece size and the
/// size of the content under their labels.
pub open spec fn commitment_report(
    commp_cid: Seq<char>,
    piece_size: nat,
    car_file_size: nat,
) -> Seq<char> {
    commp_cid_label() + commp_cid + seq!['\n'] + (piece_size_label() + decimal(piece_size)
        + seq!['\n'] + (car_file_size_label() + decimal(car_file_size) + seq!['\n']))
}

/// A report that is written as the layout asks is read, and gives back what
/// was written: for every identifier that can stand for a value in a line and
/// all sizes above zero that fit, the UTF-8 encoding of the report on them is
/// read as that identifier and those sizes.
pub proof fn lemma_commitment_report_read(commp_cid: Seq<char>, piece_size: nat, car_file_size: nat)
    requires
        is_value(commp_cid),
        0 < piece_size <= usize::MAX,
        0 < car_file_size <= usize::MAX,
    ensures
        commitment_of(lines(encode_utf8(commitment_report(commp_cid, piece_size, car_file_size))))
            == Ok::<CommitmentView, Field>(
            CommitmentView { commp_cid, piece_size, car_file_size },
        ),
{
    reveal_strlit("CommP CID: ");
    reveal_strlit("Piece size: ");
    reveal_strlit("Car file size: ");
    let first = commp_cid_label() + commp_cid;
    let second = piece_size_label() + decimal(piece_size);
    let third = car_file_size_label() + decimal(car_file_size);
    let nothing = Seq::<char>::empty();
    let below_second = third + seq!['\n'];
    let below_first = second + seq!['\n'] + below_second;
    lemma_decimal_is_value(piece_size);
    lemma_decimal_is_value(car_file_size);
    lemma_decimal_round_trip(piece_size);
    lemma_decimal_round_trip(car_file_size);
    assert(!commp_cid_label().contains('\n'));
    assert(!piece_size_label().contains('\n'));
    assert(!car_file_size_label().contains('\n'));
    lemma_labelled_line(commp_cid_label(), commp_cid);
    lemma_labelled_line(piece_size_label(), decimal(piece_size));
    lemma_labelled_line(car_file_size_label(), decimal(car_file_size));
    lemma_first_line(first, below_first);
    lemma_first_line(second, below_second);
    lemma_first_line(third, nothing);
    assert(third + seq!['\n'] + nothing =~= below_second);
    assert(encode_utf8(nothing) =~= Seq::<u8>::empty());
    let all = lines(encode_utf8(commitment_report(commp_cid, piece_size, car_file_size)));
    assert(all =~= seq![encode_utf8(first), encode_utf8(second), encode_utf8(third)]);
    lemma_labelled_value(commp_cid_label(), commp_cid);
    lemma_labelled_value(piece_size_label(), decimal(piece_size));
    lemma_labelled_value(car_file_size_label(), decimal(car_file_size));
    reveal_with_fuel(commitment_fault_from, 4);
}

impl CommitmentResult {
    #[verifier::type_invariant]
    spec fn sizes_positive(self) -> bool {
        self.piece_size > 0 && self.car_file_size > 0
    }

    /// The commitment identifier.
    pub fn commp_cid(&self) -> (r: &str)
        ensures
            r@ == self@.commp_cid,
    {
        self.commp_cid.as_str()
    }

    /// The piece size, which is above zero.
    pub fn piece_size(&self) -> (r: usize)
        ensures
            r == self@.piece_size,
            r > 0,
    {
        proof {
            use_type_invariant(self);
        }
        self.piece_size
    }

    /// The size of the content, which is above zero.
    pub fn car_file_size(&self) -> (r: usize)
        ensures
            r == self@.car_file_size,
            r > 0,
    {
        proof {
            use_type_invariant(self);
        }
        self.car_file_size
    }
}

/// Reads the size that `text` writes.
fn parse_size(text: &str) -> (r: Option<usize>)
    ensures
        r == written_size(text@),
{
    match parse_usize(text) {
        Some(n) => if n > 0 {
            Some(n)
        } else {
            None
        },
        None => None,
    }
}

/// Reads the report that the piece-commitment tool wrote to its output stream.
pub fn parse_commitment_report(stdout: &[u8]) -> (r: Result<CommitmentResult, Field>)
    ensures
        match r {
            Ok(c) => commitment_of(lines(stdout@)) == Ok::<CommitmentView, Field>(c@),
            Err(e) => commitment_of(lines(stdout@)) == Err::<CommitmentView, Field>(e),
        },
{
    let mut cursor = Lines::new(stdout);
    let ghost all = cursor@;
    proof {
        reveal_with_fuel(commitment_fault_from, 4);
    }
    let commp_cid = match cursor.next_field("CommP CID: ") {
        Some(v) => v,
        None => { return Err(Field::CommpCid); },
    };
    proof {
        lemma_after_first(all, 0);
    }
    let piece_size = match cursor.next_field("Piece size: ") {
        Some(v) => match parse_size(v.as_str()) {
            Some(n) => n,
            None => { return Err(Field::PieceSize); },
        },
        None => { return Err(Field::PieceSize); },
    };
    proof {
        lemma_after_first(after_first(all), 0);
        lemma_after_first(all, 1);
    }
    let car_file_size = match cursor.next_field("Car file size: ") {
        Some(v) => match parse_size(v.as_str()) {
            Some(n) => n,
            None => { return Err(Field::CarFileSize); },
        },
        None => { return Err(Field::CarFileSize); },
    };
    Ok(CommitmentResult { commp_cid, piece_size, car_file_size })
}

} // verus!
