//! The deal that is asked of a provider, and the deal that was made.

use crate::commitment::CommitmentResult;
use crate::error::Field;
use crate::lines::{
    after, after_first, field_at, is_line, lemma_after, lemma_first_line, lemma_labelled_line,
    lines, text_at, Lines,
};
use crate::number::{decimal, i64_of, integer, lemma_integer_round_trip, parse_i64, render_usize};
use crate::text::{is_value, lemma_labelled_is_value, lemma_labelled_value};
use vstd::utf8::encode_utf8;
use vstd::prelude::*;

verus! {

/// What is asked of the provider: the arguments of one run of the deal tool.
#[derive(Debug)]
pub struct DealRequest {
    provider: String,
    http_url: String,
    commp: String,
    car_size: usize,
    piece_size: usize,
    payload_cid: String,
    storage_price_per_epoch: usize,
    verified: bool,
}

/// A [`DealRequest`] as plain values.
pub struct DealRequestView {
    pub provider: Seq<char>,
    pub http_url: Seq<char>,
    pub commp: Seq<char>,
    pub car_size: nat,
    pub piece_size: nat,
    pub payload_cid: Seq<char>,
    pub storage_price_per_epoch: nat,
    pub verified: bool,
}

impl View for DealRequest {
    type V = DealRequestView;

    closed spec fn view(&self) -> DealRequestView {
        DealRequestView {
            provider: self.provider@,
            http_url: self.http_url@,
            commp: self.commp@,
            car_size: self.car_size as nat,
            piece_size: self.piece_size as nat,
            payload_cid: self.payload_cid@,
            storage_price_per_epoch: self.storage_price_per_epoch as nat,
            verified: self.verified,
        }
    }
}

impl DealRequestView {
    /// This request at another price.
    pub open spec fn at_price(self, price: nat) -> DealRequestView {
        DealRequestView { storage_price_per_epoch: price, ..self }
    }
}

/// How the deal tool is told whether the deal is a verified one.
pub open spec fn verified_flag(verified: bool) -> Seq<char> {
    if verified {
        "--verified=true"@
    } else {
        "--verified=false"@
    }
}

/// The arguments with which the deal tool is run for `request`.
pub open spec fn deal_arguments(request: DealRequestView) -> Seq<Seq<char>> {
    seq![
        "deal"@,
        "--provider"@,
        request.provider,
        "--http-url"@,
        request.http_url,
        "--commp"@,
        request.commp,
        "--car-size"@,
        decimal(request.car_size),
        "--piece-size"@,
        decimal(request.piece_size),
        "--payload-cid"@,
        request.payload_cid,
        "--storage-price-per-epoch"@,
        decimal(request.storage_price_per_epoch),
        verified_flag(request.verified),
    ]
}

impl DealRequest {
    #[verifier::type_invariant]
    spec fn sizes_positive(self) -> bool {
        self.car_size > 0 && self.piece_size > 0
    }

    /// The first request for a payload: at price zero, and not verified.
    pub fn new(
        provider: String,
        http_url: String,
        payload_cid: String,
        commitment: &CommitmentResult,
    ) -> (r: Self)
        ensures
            r@ == (DealRequestView {
                provider: provider@,
                http_url: http_url@,
                commp: commitment@.commp_cid,
                car_size: commitment@.car_file_size,
                piece_size: commitment@.piece_size,
                payload_cid: payload_cid@,
                storage_price_per_epoch: 0,
                verified: false,
            }),
    {
        DealRequest {
            provider,
            http_url,
            commp: commitment.commp_cid().to_owned(),
            car_size: commitment.car_file_size(),
            piece_size: commitment.piece_size(),
            payload_cid,
            storage_price_per_epoch: 0,
            verified: false,
        }
    }

    /// The provider that is asked.
    pub fn provider(&self) -> (r: &str)
        ensures
            r@ == self@.provider,
    {
        self.provider.as_str()
    }

    /// Where the provider finds the content.
    pub fn http_url(&self) -> (r: &str)
        ensures
            r@ == self@.http_url,
    {
        self.http_url.as_str()
    }

    /// The commitment identifier of the content.
    pub fn commp_cid(&self) -> (r: &str)
        ensures
            r@ == self@.commp,
    {
        self.commp.as_str()
    }

    /// The size of the content, which is above zero.
    pub fn car_size(&self) -> (r: usize)
        ensures
            r == self@.car_size,
            r > 0,
    {
        proof {
            use_type_invariant(self);
        }
        self.car_size
    }

    /// The piece size, which is above zero.
    pub fn piece_size(&self) -> (r: usize)
        ensures
            r == self@.piece_size,
            r > 0,
    {
        proof {
            use_type_invariant(self);
        }
        self.piece_size
    }

    /// The identifier of the payload.
    pub fn payload_cid(&self) -> (r: &str)
        ensures
            r@ == self@.payload_cid,
    {
        self.payload_cid.as_str()
    }

    /// The price that is offered for each epoch.
    pub fn storage_price_per_epoch(&self) -> (r: usize)
        ensures
            r == self@.storage_price_per_epoch,
    {
        self.storage_price_per_epoch
    }

    /// Whether a verified deal is asked for.
    pub fn verified(&self) -> (r: bool)
        ensures
            r == self@.verified,
    {
        self.verified
    }

    /// The same request at another price.
    pub(crate) fn at_price(self, price: usize) -> (r: Self)
        ensures
            r@ == self@.at_price(price as nat),
    {
        proof {
            use_type_invariant(&self);
        }
        DealRequest {
            provider: self.provider,
            http_url: self.http_url,
            commp: self.commp,
            car_size: self.car_size,
            piece_size: self.piece_size,
            payload_cid: self.payload_cid,
            storage_price_per_epoch: price,
            verified: self.verified,
        }
    }

    /// The arguments with which the deal tool is run for this request.
    pub fn arguments(&self) -> (r: Vec<String>)
        ensures
            r.deep_view() == deal_arguments(self@),
    {
        let mut r: Vec<String> = Vec::new();
        r.push("deal".to_owned());
        r.push("--provider".to_owned());
        r.push(self.provider.clone());
        r.push("--http-url".to_owned());
        r.push(self.http_url.clone());
        r.push("--commp".to_owned());
        r.push(self.commp.clone());
        r.push("--car-size".to_owned());
        r.push(render_usize(self.car_size));
        r.push("--piece-size".to_owned());
        r.push(render_usize(self.piece_size));
        r.push("--payload-cid".to_owned());
        r.push(self.payload_cid.clone());
        r.push("--storage-price-per-epoch".to_owned());
        r.push(render_usize(self.storage_price_per_epoch));
        if self.verified {
            r.push("--verified=true".to_owned());
        } else {
            r.push("--verified=false".to_owned());
        }
        assert(r.deep_view() =~= deal_arguments(self@));
        r
    }
}

/// The deal that the provider accepted.
#[derive(Debug)]
pub struct DealResult {
    deal_uuid: String,
    storage_provider: String,
    client_wallet: String,
    payload_cid: String,
    url: String,
    commp: String,
    start_epoch: i64,
    end_epoch: i64,
    provider_collateral: String,
}

/// A [`DealResult`] as plain values.
pub struct DealResultView {
    pub deal_uuid: Seq<char>,
    pub storage_provider: Seq<char>,
    pub client_wallet: Seq<char>,
    pub payload_cid: Seq<char>,
    pub url: Seq<char>,
    pub commp: Seq<char>,
    pub start_epoch: int,
    pub end_epoch: int,
    pub provider_collateral: Seq<char>,
}

impl View for DealResult {
    type V = DealResultView;

    closed spec fn view(&self) -> DealResultView {
        DealResultView {
            deal_uuid: self.deal_uuid@,
            storage_provider: self.storage_provider@,
            client_wallet: self.client_wallet@,
            payload_cid: self.payload_cid@,
            url: self.url@,
            commp: self.commp@,
            start_epoch: self.start_epoch as int,
            end_epoch: self.end_epoch as int,
            provider_collateral: self.provider_collateral@,
        }
    }
}

/// What stands before the deal identifier in its line.
pub open spec fn deal_uuid_label() -> Seq<char> {
    "deal uuid: "@
}

/// What stands before the client wallet in its line.
pub open spec fn client_wallet_label() -> Seq<char> {
    "client wallet: "@
}

/// What stands before the commitment identifier in its line.
pub open spec fn commp_label() -> Seq<char> {
    "commp: "@
}

/// What stands before the start epoch in its line.
pub open spec fn start_epoch_label() -> Seq<char> {
    "start epoch: "@
}

/// What stands before the end epoch in its line.
pub open spec fn end_epoch_label() -> Seq<char> {
    "end epoch: "@
}

/// What stands before the provider collateral in its line.
pub open spec fn provider_collateral_label() -> Seq<char> {
    "provider collateral: "@
}

/// The epoch that line `i` carries under the template `prefix{}`.
pub open spec fn epoch_at(prefix: Seq<char>, lines: Seq<Seq<u8>>, i: int) -> Option<i64> {
    match field_at(prefix, lines, i) {
        Some(v) => i64_of(v),
        None => None,
    }
}

/// The end epoch that line 8 carries: an epoch after the start epoch of line 7.
pub open spec fn end_epoch_at(lines: Seq<Seq<u8>>) -> Option<i64> {
    match epoch_at(end_epoch_label(), lines, 8) {
        Some(end) => if epoch_at(start_epoch_label(), lines, 7) matches Some(start) && start
            < end {
            Some(end)
        } else {
            None
        },
        None => None,
    }
}

/// Whether line `i` of a deal report is as the report's layout asks. The
/// report has ten lines, and what follows them is not read. Lines 0, 2, 4 and
/// 5 need only be text; the others carry, under their labels, the deal
/// identifier, the client wallet, the commitment identifier, the two epochs and
/// the provider collateral.
pub open spec fn deal_line_ok(lines: Seq<Seq<u8>>, i: int) -> bool {
    if i == 0 || i == 2 || i == 4 || i == 5 {
        text_at(lines, i) is Some
    } else if i == 1 {
        field_at(deal_uuid_label(), lines, 1) is Some
    } else if i == 3 {
        field_at(client_wallet_label(), lines, 3) is Some
    } else if i == 6 {
        field_at(commp_label(), lines, 6) is Some
    } else if i == 7 {
        epoch_at(start_epoch_label(), lines, 7) is Some
    } else if i == 8 {
        end_epoch_at(lines) is Some
    } else if i == 9 {
        field_at(provider_collateral_label(), lines, 9) is Some
    } else {
        true
    }
}

/// The field that line `i` of a deal report stands for.
pub open spec fn deal_line_field(i: int) -> Field {
    if i == 1 {
        Field::DealUuid
    } else if i == 3 {
        Field::ClientWallet
    } else if i == 6 {
        Field::Commp
    } else if i == 7 {
        Field::StartEpoch
    } else if i == 8 {
        Field::EndEpoch
    } else if i == 9 {
        Field::ProviderCollateral
    } else {
        Field::Stdout
    }
}

/// The first of the lines `from..10` of a deal report that is not as the
/// layout asks.
pub open spec fn deal_fault_from(lines: Seq<Seq<u8>>, from: int) -> Option<int>
    decreases 10 - from,
{
    if from >= 10 {
        None
    } else if !deal_line_ok(lines, from) {
        Some(from)
    } else {
        deal_fault_from(lines, from + 1)
    }
}

/// What a deal report says of the deal made on `request`: the deal with the
/// values of its lines, and the provider, payload and source of the request;
/// or the field of the first line that is not as the layout asks.
pub open spec fn deal_of(lines: Seq<Seq<u8>>, request: DealRequestView) -> Result<
    DealResultView,
    Field,
> {
    match deal_fault_from(lines, 0) {
        Some(i) => Err(deal_line_field(i)),
        None => Ok(
            DealResultView {
                deal_uuid: field_at(deal_uuid_label(), lines, 1)->0,
                storage_provider: request.provider,
                client_wallet: field_at(client_wallet_label(), lines, 3)->0,
                payload_cid: request.payload_cid,
                url: request.http_url,
                commp: field_at(commp_label(), lines, 6)->0,
                start_epoch: epoch_at(start_epoch_label(), lines, 7)->0 as int,
                end_epoch: epoch_at(end_epoch_label(), lines, 8)->0 as int,
                provider_collateral: field_at(provider_collateral_label(), lines, 9)->0,
            },
        ),
    }
}

/// A report with a line that is not as the layout asks is not read: the
/// result is an error, whichever of the ten lines it is and whatever is wrong
/// with it. A line is not as the layout asks when it is missing or is not
/// text, when it does not start with its label, as when two lines changed
/// places, when nothing follows the label, when what follows is no integer
/// where an epoch is due, and when the end epoch is not after the start epoch.
pub proof fn lemma_malformed_deal_line(stdout: Seq<u8>, request: DealRequestView, i: int)
    requires
        0 <= i < 10,
        !deal_line_ok(lines(stdout), i),
    ensures
        deal_of(lines(stdout), request) is Err,
{
    reveal_with_fuel(deal_fault_from, 11);
}

/// A report is read exactly when each of its ten lines is as the layout asks.
/// What is read is whole: each value that was taken from a line is not empty,
/// has no white space at either end and stays on one line, and the deal ends
/// after it starts.
pub proof fn lemma_deal_read(stdout: Seq<u8>, request: DealRequestView)
    ensures
        deal_of(lines(stdout), request) is Ok <==> (forall|i: int|
            0 <= i < 10 ==> deal_line_ok(lines(stdout), i)),
        deal_of(lines(stdout), request) matches Ok(d) ==> {
            &&& is_value(d.deal_uuid)
            &&& is_value(d.client_wallet)
            &&& is_value(d.commp)
            &&& is_value(d.provider_collateral)
            &&& d.start_epoch < d.end_epoch
            &&& d.storage_provider == request.provider
            &&& d.payload_cid == request.payload_cid
            &&& d.url == request.http_url
        },
{
    reveal_with_fuel(deal_fault_from, 11);
    let all = lines(stdout);
    if deal_of(all, request) is Err {
        let k = deal_fault_from(all, 0)->0;
        assert(!deal_line_ok(all, k));
    } else {
        lemma_labelled_is_value(deal_uuid_label(), text_at(all, 1)->0);
        lemma_labelled_is_value(client_wallet_label(), text_at(all, 3)->0);
        lemma_labelled_is_value(commp_label(), text_at(all, 6)->0);
        lemma_labelled_is_value(provider_collateral_label(), text_at(all, 9)->0);
    }
}

/// The text of the report on a deal: ten lines, each ended with a line feed.
/// The four lines that carry no value say what `notes` holds, in its order;
/// the others carry the values of `deal` under their labels.
pub open spec fn deal_report(notes: Seq<Seq<char>>, deal: DealResultView) -> Seq<char> {
    let feed = seq!['\n'];
    notes[0] + feed + (deal_uuid_label() + deal.deal_uuid + feed + (notes[1] + feed + (
    client_wallet_label() + deal.client_wallet + feed + (notes[2] + feed + (notes[3] + feed + (
    commp_label() + deal.commp + feed + (start_epoch_label() + integer(deal.start_epoch) + feed
        + (end_epoch_label() + integer(deal.end_epoch) + feed + (provider_collateral_label()
        + deal.provider_collateral + feed)))))))))
}

/// A report that is written as the layout asks is read, and gives back what
/// was written: for all values that can stand in a line, all epochs that fit
/// and are in order, and whatever the four other lines say, the UTF-8 encoding
/// of the report on a deal is read as that deal, with the provider, the
/// payload and the source of the request.
pub proof fn lemma_deal_report_read(
    notes: Seq<Seq<char>>,
    deal: DealResultView,
    request: DealRequestView,
)
    requires
        notes.len() == 4,
        forall|i: int| 0 <= i < 4 ==> is_line(#[trigger] notes[i]),
        is_value(deal.deal_uuid),
        is_value(deal.client_wallet),
        is_value(deal.commp),
        is_value(deal.provider_collateral),
        i64::MIN <= deal.start_epoch < deal.end_epoch <= i64::MAX,
    ensures
        deal_of(lines(encode_utf8(deal_report(notes, deal))), request) == Ok::<
            DealResultView,
            Field,
        >(
            DealResultView {
                storage_provider: request.provider,
                payload_cid: request.payload_cid,
                url: request.http_url,
                ..deal
            },
        ),
{
    reveal_strlit("deal uuid: ");
    reveal_strlit("client wallet: ");
    reveal_strlit("commp: ");
    reveal_strlit("start epoch: ");
    reveal_strlit("end epoch: ");
    reveal_strlit("provider collateral: ");
    let feed = seq!['\n'];
    let start = integer(deal.start_epoch);
    let end = integer(deal.end_epoch);
    lemma_integer_round_trip(deal.start_epoch);
    lemma_integer_round_trip(deal.end_epoch);
    let l1 = deal_uuid_label() + deal.deal_uuid;
    let l3 = client_wallet_label() + deal.client_wallet;
    let l6 = commp_label() + deal.commp;
    let l7 = start_epoch_label() + start;
    let l8 = end_epoch_label() + end;
    let l9 = provider_collateral_label() + deal.provider_collateral;
    let nothing = Seq::<char>::empty();
    let r9 = l9 + feed;
    let r8 = l8 + feed + r9;
    let r7 = l7 + feed + r8;
    let r6 = l6 + feed + r7;
    let r5 = notes[3] + feed + r6;
    let r4 = notes[2] + feed + r5;
    let r3 = l3 + feed + r4;
    let r2 = notes[1] + feed + r3;
    let r1 = l1 + feed + r2;
    assert(!deal_uuid_label().contains('\n'));
    assert(!client_wallet_label().contains('\n'));
    assert(!commp_label().contains('\n'));
    assert(!start_epoch_label().contains('\n'));
    assert(!end_epoch_label().contains('\n'));
    assert(!provider_collateral_label().contains('\n'));
    lemma_labelled_line(deal_uuid_label(), deal.deal_uuid);
    lemma_labelled_line(client_wallet_label(), deal.client_wallet);
    lemma_labelled_line(commp_label(), deal.commp);
    lemma_labelled_line(start_epoch_label(), start);
    lemma_labelled_line(end_epoch_label(), end);
    lemma_labelled_line(provider_collateral_label(), deal.provider_collateral);
    lemma_first_line(notes[0], r1);
    lemma_first_line(l1, r2);
    lemma_first_line(notes[1], r3);
    lemma_first_line(l3, r4);
    lemma_first_line(notes[2], r5);
    lemma_first_line(notes[3], r6);
    lemma_first_line(l6, r7);
    lemma_first_line(l7, r8);
    lemma_first_line(l8, r9);
    lemma_first_line(l9, nothing);
    assert(l9 + feed + nothing =~= r9);
    assert(encode_utf8(nothing) =~= Seq::<u8>::empty());
    let all = lines(encode_utf8(deal_report(notes, deal)));
    assert(all =~= seq![
        encode_utf8(notes[0]),
        encode_utf8(l1),
        encode_utf8(notes[1]),
        encode_utf8(l3),
        encode_utf8(notes[2]),
        encode_utf8(notes[3]),
        encode_utf8(l6),
        encode_utf8(l7),
        encode_utf8(l8),
        encode_utf8(l9),
    ]);
    lemma_labelled_value(deal_uuid_label(), deal.deal_uuid);
    lemma_labelled_value(client_wallet_label(), deal.client_wallet);
    lemma_labelled_value(commp_label(), deal.commp);
    lemma_labelled_value(start_epoch_label(), start);
    lemma_labelled_value(end_epoch_label(), end);
    lemma_labelled_value(provider_collateral_label(), deal.provider_collateral);
    reveal_with_fuel(deal_fault_from, 11);
}

impl DealResult {
    #[verifier::type_invariant]
    spec fn epochs_ordered(self) -> bool {
        self.start_epoch < self.end_epoch
    }

    /// The identifier of the deal.
    pub fn deal_uuid(&self) -> (r: &str)
        ensures
            r@ == self@.deal_uuid,
    {
        self.deal_uuid.as_str()
    }

    /// The provider that accepted the deal.
    pub fn storage_provider(&self) -> (r: &str)
        ensures
            r@ == self@.storage_provider,
    {
        self.storage_provider.as_str()
    }

    /// The wallet of the client.
    pub fn client_wallet(&self) -> (r: &str)
        ensures
            r@ == self@.client_wallet,
    {
        self.client_wallet.as_str()
    }

    /// The identifier of the payload.
    pub fn payload_cid(&self) -> (r: &str)
        ensures
            r@ == self@.payload_cid,
    {
        self.payload_cid.as_str()
    }

    /// Where the provider finds the content.
    pub fn url(&self) -> (r: &str)
        ensures
            r@ == self@.url,
    {
        self.url.as_str()
    }

    /// The commitment identifier, as the provider reported it.
    pub fn commp_cid(&self) -> (r: &str)
        ensures
            r@ == self@.commp,
    {
        self.commp.as_str()
    }

    /// The epoch at which the deal starts, which is before its end.
    pub fn start_epoch(&self) -> (r: i64)
        ensures
            r == self@.start_epoch,
            r < self@.end_epoch,
    {
        proof {
            use_type_invariant(self);
        }
        self.start_epoch
    }

    /// The epoch at which the deal ends, which is after its start.
    pub fn end_epoch(&self) -> (r: i64)
        ensures
            r == self@.end_epoch,
            r > self@.start_epoch,
    {
        proof {
            use_type_invariant(self);
        }
        self.end_epoch
    }

    /// What the provider put up as collateral.
    pub fn provider_collateral(&self) -> (r: &str)
        ensures
            r@ == self@.provider_collateral,
    {
        self.provider_collateral.as_str()
    }
}

/// Takes a line that carries no value off the stream.
fn skip_text(cursor: &mut Lines<'_>) -> (r: bool)
    ensures
        final(cursor)@ == after_first(old(cursor)@),
        r == text_at(old(cursor)@, 0) is Some,
{
    cursor.next_text().is_some()
}

/// Takes a line that carries an epoch off the stream.
fn next_epoch(cursor: &mut Lines<'_>, prefix: &str) -> (r: Option<i64>)
    ensures
        final(cursor)@ == after_first(old(cursor)@),
        r == epoch_at(prefix@, old(cursor)@, 0),
{
    match cursor.next_field(prefix) {
        Some(v) => parse_i64(v.as_str()),
        None => None,
    }
}

/// Reads the report that the deal tool wrote to its output stream when it had
/// made the deal that `request` asked for.
pub fn parse_deal_report(stdout: &[u8], request: &DealRequest) -> (r: Result<DealResult, Field>)
    ensures
        match r {
            Ok(d) => deal_of(lines(stdout@), request@) == Ok::<DealResultView, Field>(d@),
            Err(e) => deal_of(lines(stdout@), request@) == Err::<DealResultView, Field>(e),
        },
{
    let mut cursor = Lines::new(stdout);
    let ghost all = cursor@;
    proof {
        reveal_with_fuel(deal_fault_from, 11);
        reveal_with_fuel(after, 11);
        lemma_after(all, 1, 0);
        lemma_after(all, 2, 0);
        lemma_after(all, 3, 0);
        lemma_after(all, 4, 0);
        lemma_after(all, 5, 0);
        lemma_after(all, 6, 0);
        lemma_after(all, 7, 0);
        lemma_after(all, 8, 0);
        lemma_after(all, 9, 0);
    }
    if !skip_text(&mut cursor) {
        return Err(Field::Stdout);
    }
    let deal_uuid = match cursor.next_field("deal uuid: ") {
        Some(v) => v,
        None => { return Err(Field::DealUuid); },
    };
    if !skip_text(&mut cursor) {
        return Err(Field::Stdout);
    }
    let client_wallet = match cursor.next_field("client wallet: ") {
        Some(v) => v,
        None => { return Err(Field::ClientWallet); },
    };
    if !skip_text(&mut cursor) {
        return Err(Field::Stdout);
    }
    if !skip_text(&mut cursor) {
        return Err(Field::Stdout);
    }
    let commp = match cursor.next_field("commp: ") {
        Some(v) => v,
        None => { return Err(Field::Commp); },
    };
    let start_epoch = match next_epoch(&mut cursor, "start epoch: ") {
        Some(n) => n,
        None => { return Err(Field::StartEpoch); },
    };
    let end_epoch = match next_epoch(&mut cursor, "end epoch: ") {
        Some(n) => n,
        None => { return Err(Field::EndEpoch); },
    };
    if end_epoch <= start_epoch {
        return Err(Field::EndEpoch);
    }
    let provider_collateral = match cursor.next_field("provider collateral: ") {
        Some(v) => v,
        None => { return Err(Field::ProviderCollateral); },
    };
    Ok(
        DealResult {
            deal_uuid,
            storage_provider: request.provider().to_owned(),
            client_wallet,
            payload_cid: request.payload_cid().to_owned(),
            url: request.http_url().to_owned(),
            commp,
            start_epoch,
            end_epoch,
            provider_collateral,
        },
    )
}

} // verus!
