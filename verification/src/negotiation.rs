//! The negotiation of a deal: the deal tool is run, and run again at the
//! price that the provider asks for, until the deal is made or lost.

use crate::deal::{
    deal_of, parse_deal_report, DealRequest, DealRequestView, DealResult, DealResultView,
};
use crate::error::{Failure, FailureView};
use crate::lines::{decode, lines, text_of};
use crate::number::{
    decimal, is_digit, lemma_decimal_digits, lemma_decimal_is_value, lemma_decimal_round_trip,
    parse_usize, usize_of,
};
use crate::text::{
    chars_of, labelled, labelled_value, last_segment, last_segment_start, lemma_labelled_value,
    lemma_last_segment, mentions, occurs_at, occurs_in,
};
use crate::tool::{Event, EventView};
use vstd::prelude::*;

verus! {

/// The words by which the deal tool says that the provider asks for more than
/// was offered.
pub open spec fn price_marker() -> Seq<char> {
    "storage price per epoch less than asking price"@
}

/// What stands before the price that the provider asks for.
pub open spec fn quote_label() -> Seq<char> {
    "0 < "@
}

/// The price that `diagnostic` quotes after its last colon, under the template
/// `0 < {}`.
pub open spec fn quoted_price(diagnostic: Seq<char>) -> Option<usize> {
    match labelled_value(quote_label(), last_segment(diagnostic, ':')) {
        Some(v) => usize_of(v),
        None => None,
    }
}

/// The price that the provider asks for, where `diagnostic` says that it asks
/// for more than was offered and quotes a price.
pub open spec fn asking_price(diagnostic: Seq<char>) -> Option<usize> {
    if occurs_in(diagnostic, price_marker()) {
        quoted_price(diagnostic)
    } else {
        None
    }
}

/// A diagnostic that ends with the marker, a colon and the quote of a price is
/// read as asking for that price, whatever stands before the marker.
pub proof fn lemma_asking_price_read(before: Seq<char>, price: nat)
    requires
        price <= usize::MAX,
    ensures
        asking_price(before + price_marker() + seq![':', ' '] + quote_label() + decimal(price))
            == Some(price as usize),
{
    reveal_strlit("0 < ");
    let digits = decimal(price);
    let diagnostic = before + price_marker() + seq![':', ' '] + quote_label() + digits;
    let at = before.len() as int;
    assert(diagnostic.subrange(at, at + price_marker().len()) =~= price_marker());
    assert(occurs_at(diagnostic, price_marker(), at));
    lemma_decimal_digits(price);
    lemma_decimal_round_trip(price);
    let colon = at + price_marker().len();
    assert(diagnostic[colon] == ':');
    assert forall|j: int| colon + 1 <= j < diagnostic.len() implies diagnostic[j] != ':' by {
        if j >= colon + 2 + quote_label().len() {
            assert(is_digit(digits[j - colon - 2 - quote_label().len()]));
        }
    }
    lemma_last_segment(diagnostic, ':', colon + 1);
    let segment = diagnostic.skip(colon + 1);
    let line = quote_label() + digits;
    assert(segment =~= seq![' '] + line);
    assert(segment.drop_first() =~= line);
    lemma_decimal_is_value(price);
    lemma_labelled_value(quote_label(), digits);
}

/// Reads the price that the provider asks for out of what the deal tool wrote
/// to its diagnostic stream.
pub fn read_asking_price(diagnostic: &str) -> (r: Option<usize>)
    ensures
        r == asking_price(diagnostic@),
{
    if !mentions(diagnostic, "storage price per epoch less than asking price") {
        return None;
    }
    let chars = chars_of(diagnostic);
    let start = last_segment_start(&chars, ':');
    let segment = diagnostic.substring_char(start, chars.len());
    assert(segment@ =~= chars@.skip(start as int));
    match labelled("0 < ", segment) {
        Some(v) => parse_usize(v.as_str()),
        None => None,
    }
}

/// A negotiation that waits for the deal tool to be run on its request.
#[derive(Debug)]
pub struct Negotiation {
    request: DealRequest,
    attempts: usize,
    max_attempts: usize,
}

/// A [`Negotiation`] as plain values: the request to submit, the number of
/// runs of the deal tool that were made for it so far, and the number of runs
/// that may be made in all.
pub struct NegotiationView {
    pub request: DealRequestView,
    pub attempts: nat,
    pub max_attempts: nat,
}

impl View for Negotiation {
    type V = NegotiationView;

    closed spec fn view(&self) -> NegotiationView {
        NegotiationView {
            request: self.request@,
            attempts: self.attempts as nat,
            max_attempts: self.max_attempts as nat,
        }
    }
}

/// What to do next in a negotiation.
#[derive(Debug)]
pub enum Step {
    /// Run the deal tool on the request of this negotiation, and hand what
    /// came of it to [`Negotiation::advance`].
    Submit(Negotiation),
    /// The deal is made.
    Accepted(DealResult),
    /// The deal is lost.
    Fatal(Failure),
}

/// A [`Step`] as plain values.
pub enum StepView {
    Submit(NegotiationView),
    Accepted(DealResultView),
    Fatal(FailureView),
}

impl View for Step {
    type V = StepView;

    open spec fn view(&self) -> StepView {
        match self {
            Step::Submit(negotiation) => StepView::Submit(negotiation@),
            Step::Accepted(deal) => StepView::Accepted(deal@),
            Step::Fatal(failure) => StepView::Fatal(failure@),
        }
    }
}

/// The first step of a negotiation of `request` that may run the deal tool
/// `max_attempts` times: to submit the request, unless no run is allowed.
pub open spec fn first_step(request: DealRequestView, max_attempts: nat) -> StepView {
    if max_attempts == 0 {
        StepView::Fatal(FailureView::RetriesExhausted)
    } else {
        StepView::Submit(NegotiationView { request, attempts: 0, max_attempts })
    }
}

/// The step that follows when the deal tool was rejected with `diagnostic`.
/// Where the provider asks for a price that is not below the one that was
/// offered, and a run is left, the request is submitted again at that price;
/// where no run is left, the negotiation is exhausted. The price of a request
/// is never lowered: a diagnostic that asks for less than was offered is
/// surfaced as it stands, as is any diagnostic that asks for no price.
pub open spec fn after_rejection(negotiation: NegotiationView, diagnostic: Seq<char>) -> StepView {
    match asking_price(diagnostic) {
        Some(price) => if price < negotiation.request.storage_price_per_epoch {
            StepView::Fatal(FailureView::Deal(diagnostic))
        } else if negotiation.attempts + 1 < negotiation.max_attempts {
            StepView::Submit(
                NegotiationView {
                    request: negotiation.request.at_price(price as nat),
                    attempts: negotiation.attempts + 1,
                    max_attempts: negotiation.max_attempts,
                },
            )
        } else {
            StepView::Fatal(FailureView::RetriesExhausted)
        },
        None => StepView::Fatal(FailureView::Deal(diagnostic)),
    }
}

/// The step that follows when `event` came of running the deal tool on the
/// request of `negotiation`.
pub open spec fn next_step(negotiation: NegotiationView, event: EventView) -> StepView {
    match event {
        EventView::NotStarted(cause) => StepView::Fatal(FailureView::Process(cause)),
        EventView::TimedOut => StepView::Fatal(FailureView::TimedOut),
        EventView::Exited(output) => if output.success {
            match deal_of(lines(output.stdout), negotiation.request) {
                Ok(deal) => StepView::Accepted(deal),
                Err(field) => StepView::Fatal(FailureView::Parse(field)),
            }
        } else {
            match text_of(output.stderr) {
                Some(diagnostic) => after_rejection(negotiation, diagnostic),
                None => StepView::Fatal(FailureView::Undecodable),
            }
        },
    }
}

impl Negotiation {
    #[verifier::type_invariant]
    spec fn run_left(self) -> bool {
        self.attempts < self.max_attempts
    }

    /// Starts the negotiation of `request`, in which the deal tool may be run
    /// `max_attempts` times.
    pub fn start(request: DealRequest, max_attempts: usize) -> (r: Step)
        ensures
            r@ == first_step(request@, max_attempts as nat),
    {
        if max_attempts == 0 {
            Step::Fatal(Failure::RetriesExhausted)
        } else {
            Step::Submit(Negotiation { request, attempts: 0, max_attempts })
        }
    }

    /// The request to run the deal tool on.
    pub fn request(&self) -> (r: &DealRequest)
        ensures
            r@ == self@.request,
    {
        &self.request
    }

    /// The number of runs of the deal tool that were made so far, which is
    /// below the number of runs that may be made.
    pub fn attempts(&self) -> (r: usize)
        ensures
            r == self@.attempts,
            r < self@.max_attempts,
    {
        proof {
            use_type_invariant(self);
        }
        self.attempts
    }

    /// The number of runs of the deal tool that may be made in all.
    pub fn max_attempts(&self) -> (r: usize)
        ensures
            r == self@.max_attempts,
    {
        self.max_attempts
    }

    /// Takes the step that follows when `event` came of running the deal tool
    /// on the request of this negotiation. A request that is submitted again
    /// is the same request at a price that is not below the one before.
    pub fn advance(self, event: Event) -> (r: Step)
        ensures
            r@ == next_step(self@, event@),
            r@ matches StepView::Submit(again) ==> {
                &&& self@.request.storage_price_per_epoch
                    <= again.request.storage_price_per_epoch
                &&& again.request == self@.request.at_price(again.request.storage_price_per_epoch)
                &&& again.attempts == self@.attempts + 1
                &&& again.max_attempts == self@.max_attempts
            },
    {
        proof {
            use_type_invariant(&self);
        }
        match event {
            Event::NotStarted(cause) => Step::Fatal(Failure::Process(cause)),
            Event::TimedOut => Step::Fatal(Failure::TimedOut),
            Event::Exited(output) => {
                if output.success {
                    match parse_deal_report(output.stdout.as_slice(), &self.request) {
                        Ok(deal) => Step::Accepted(deal),
                        Err(field) => Step::Fatal(Failure::Parse(field)),
                    }
                } else {
                    match decode(output.stderr.as_slice()) {
                        Some(diagnostic) => match read_asking_price(diagnostic) {
                            Some(price) => {
                                if price < self.request.storage_price_per_epoch() {
                                    Step::Fatal(Failure::Deal(diagnostic.to_owned()))
                                } else if self.attempts + 1 < self.max_attempts {
                                    Step::Submit(
                                        Negotiation {
                                            request: self.request.at_price(price),
                                            attempts: self.attempts + 1,
                                            max_attempts: self.max_attempts,
                                        },
                                    )
                                } else {
                                    Step::Fatal(Failure::RetriesExhausted)
                                }
                            },
                            None => Step::Fatal(Failure::Deal(diagnostic.to_owned())),
                        },
                        None => Step::Fatal(Failure::Undecodable),
                    }
                }
            },
        }
    }
}

/// Where a negotiation stands when `event` is handed to it at `step`: a
/// negotiation that waits takes its next step, one that is over stays as it is.
pub open spec fn feed(step: StepView, event: EventView) -> StepView {
    match step {
        StepView::Submit(negotiation) => next_step(negotiation, event),
        _ => step,
    }
}

/// Where a negotiation stands when `events` were handed to it in turn, from
/// `step` on.
pub open spec fn run(step: StepView, events: Seq<EventView>) -> StepView
    decreases events.len(),
{
    if events.len() == 0 {
        step
    } else {
        run(feed(step, events[0]), events.drop_first())
    }
}

/// The prices at which the deal tool was run while `events` were handed to a
/// negotiation in turn, from `step` on: one price for each event that reached
/// a negotiation that waited.
pub open spec fn prices_offered(step: StepView, events: Seq<EventView>) -> Seq<nat>
    decreases events.len(),
{
    match step {
        StepView::Submit(negotiation) => if events.len() == 0 {
            Seq::empty()
        } else {
            seq![negotiation.request.storage_price_per_epoch] + prices_offered(
                feed(step, events[0]),
                events.drop_first(),
            )
        },
        _ => Seq::empty(),
    }
}

/// The price of a request that waits to be submitted.
pub open spec fn price_of(step: StepView) -> nat
    recommends
        step is Submit,
{
    step->Submit_0.request.storage_price_per_epoch
}

/// A step never lowers the price: a request that is submitted again is offered
/// at a price that is not below the one before.
pub proof fn lemma_step_keeps_price(negotiation: NegotiationView, event: EventView)
    ensures
        next_step(negotiation, event) matches StepView::Submit(again)
            ==> negotiation.request.storage_price_per_epoch
            <= again.request.storage_price_per_epoch,
{
}

/// Whatever the deal tool answers, no price that is offered is below one that
/// was offered before it. The first price is the one that the negotiation
/// started with, and the price at which the negotiation is left is not below
/// it.
pub proof fn lemma_prices_never_fall(step: StepView, events: Seq<EventView>)
    requires
        step is Submit,
    ensures
        forall|i: int, j: int|
            0 <= i <= j < prices_offered(step, events).len() ==> prices_offered(step, events)[i]
                <= prices_offered(step, events)[j],
        forall|i: int|
            0 <= i < prices_offered(step, events).len() ==> price_of(step) <= prices_offered(
                step,
                events,
            )[i],
        prices_offered(step, events).len() > 0 ==> prices_offered(step, events)[0] == price_of(
            step,
        ),
        run(step, events) is Submit ==> price_of(step) <= price_of(run(step, events)),
    decreases events.len(),
{
    if events.len() > 0 {
        let next = feed(step, events[0]);
        let rest = events.drop_first();
        lemma_step_keeps_price(step->Submit_0, events[0]);
        if next is Submit {
            lemma_prices_never_fall(next, rest);
        } else {
            lemma_run_over(next, rest);
        }
        let all = prices_offered(step, events);
        let tail = prices_offered(next, rest);
        assert(all == seq![price_of(step)] + tail);
        assert forall|i: int, j: int| 0 <= i <= j < all.len() implies all[i] <= all[j] by {
            if i > 0 {
                assert(all[i] == tail[i - 1]);
                assert(all[j] == tail[j - 1]);
            } else if j > 0 {
                assert(all[j] == tail[j - 1]);
            }
        }
    }
}

/// A negotiation that is over stays as it is, whatever is handed to it.
pub proof fn lemma_run_over(step: StepView, events: Seq<EventView>)
    requires
        !(step is Submit),
    ensures
        run(step, events) == step,
        prices_offered(step, events) == Seq::<nat>::empty(),
    decreases events.len(),
{
    if events.len() > 0 {
        lemma_run_over(step, events.drop_first());
    }
}

/// The runs that are left to a negotiation that waits; none to one that is
/// over.
pub open spec fn runs_left(step: StepView) -> nat {
    match step {
        StepView::Submit(negotiation) => (negotiation.max_attempts - negotiation.attempts) as nat,
        _ => 0,
    }
}

/// The deal tool is run no more often than the negotiation allows, whatever
/// the provider answers.
pub proof fn lemma_runs_bounded(step: StepView, events: Seq<EventView>)
    requires
        step matches StepView::Submit(negotiation) ==> negotiation.attempts
            < negotiation.max_attempts,
    ensures
        prices_offered(step, events).len() <= runs_left(step),
    decreases events.len(),
{
    if step is Submit && events.len() > 0 {
        lemma_runs_bounded(feed(step, events[0]), events.drop_first());
    }
}

/// The events of `schedule` that are meant for the first of two negotiations
/// (`first`), or for the second.
pub open spec fn events_for(schedule: Seq<(bool, EventView)>, first: bool) -> Seq<EventView>
    decreases schedule.len(),
{
    if schedule.len() == 0 {
        Seq::empty()
    } else if schedule[0].0 == first {
        seq![schedule[0].1] + events_for(schedule.drop_first(), first)
    } else {
        events_for(schedule.drop_first(), first)
    }
}

/// Where two negotiations stand when the events of `schedule` were handed out
/// in turn, each to the negotiation that it is meant for.
pub open spec fn run_pair(a: StepView, b: StepView, schedule: Seq<(bool, EventView)>) -> (
    StepView,
    StepView,
)
    decreases schedule.len(),
{
    if schedule.len() == 0 {
        (a, b)
    } else if schedule[0].0 {
        run_pair(feed(a, schedule[0].1), b, schedule.drop_first())
    } else {
        run_pair(a, feed(b, schedule[0].1), schedule.drop_first())
    }
}

/// Two negotiations that go on side by side do not touch each other: however
/// their events fall in time, each ends where it would have ended alone.
pub proof fn lemma_negotiations_independent(
    a: StepView,
    b: StepView,
    schedule: Seq<(bool, EventView)>,
)
    ensures
        run_pair(a, b, schedule) == (
            run(a, events_for(schedule, true)),
            run(b, events_for(schedule, false)),
        ),
    decreases schedule.len(),
{
    if schedule.len() > 0 {
        let rest = schedule.drop_first();
        let event = schedule[0].1;
        if schedule[0].0 {
            lemma_negotiations_independent(feed(a, event), b, rest);
            assert(events_for(schedule, true).drop_first() =~= events_for(rest, true));
        } else {
            lemma_negotiations_independent(a, feed(b, event), rest);
            assert(events_for(schedule, false).drop_first() =~= events_for(rest, false));
        }
    }
}

} // verus!
