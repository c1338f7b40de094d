use storage_deal::commitment::parse_commitment_report;
use storage_deal::deal::DealRequest;
use storage_deal::error::{Failure, Field};
use storage_deal::negotiation::{read_asking_price, Negotiation, Step};
use storage_deal::tool::{Event, ToolOutput};

const ACCEPTED: [&str; 10] = [
    "sent deal proposal",
    "  deal uuid: 5e1b0c8e",
    "  storage provider: f01234",
    "  client wallet: f1abc",
    "  payload cid: bafy",
    "  url: http://gw/x",
    "  commp: baga123",
    "  start epoch: 100",
    "  end epoch: 200",
    "  provider collateral: 0",
];

fn accepted() -> Vec<u8> {
    (ACCEPTED.join("\n") + "\n").into_bytes()
}

fn fresh_request() -> DealRequest {
    let commitment =
        parse_commitment_report(b"CommP CID: baga123\nPiece size: 1024\nCar file size: 2048\n")
            .unwrap();
    DealRequest::new(
        "f01234".to_string(),
        "http://gw/x".to_string(),
        "bafy".to_string(),
        &commitment,
    )
}

fn started(max_attempts: usize) -> Negotiation {
    match Negotiation::start(fresh_request(), max_attempts) {
        Step::Submit(n) => n,
        other => panic!("no negotiation: {:?}", other),
    }
}

fn rejected(stderr: &[u8]) -> Event {
    Event::Exited(ToolOutput { success: false, stdout: Vec::new(), stderr: stderr.to_vec() })
}

fn succeeded(stdout: &[u8]) -> Event {
    Event::Exited(ToolOutput { success: true, stdout: stdout.to_vec(), stderr: Vec::new() })
}

fn asked(price: usize) -> Event {
    rejected(
        format!("Error: storage price per epoch less than asking price: 0 < {}\n", price)
            .as_bytes(),
    )
}

fn resubmitted(step: Step) -> Negotiation {
    match step {
        Step::Submit(n) => n,
        other => panic!("not submitted again: {:?}", other),
    }
}

#[test]
fn asking_price_is_read_after_the_last_colon() {
    assert_eq!(
        read_asking_price("deal rejected: storage price per epoch less than asking price: 0 < 100"),
        Some(100)
    );
    assert_eq!(
        read_asking_price("storage price per epoch less than asking price: 0 < 100\n"),
        Some(100)
    );
    assert_eq!(
        read_asking_price("storage price per epoch less than asking price:0 <   7  "),
        Some(7)
    );
    assert_eq!(
        read_asking_price("0 < 12 (storage price per epoch less than asking price)"),
        None
    );
    assert_eq!(
        read_asking_price("x: storage price per epoch less than asking price\n: 0 < +250"),
        Some(250)
    );
}

#[test]
fn asking_price_needs_the_marker() {
    assert_eq!(read_asking_price("price too low: 0 < 100"), None);
    assert_eq!(read_asking_price("0 < 100"), None);
    assert_eq!(read_asking_price("Storage price per epoch less than asking price: 0 < 100"), None);
    assert_eq!(read_asking_price(""), None);
}

#[test]
fn asking_price_needs_the_quote() {
    let marker = "storage price per epoch less than asking price";
    let tails = [
        "",
        ":",
        ": ",
        ": 100",
        ": 1 < 100",
        ": 0 < ",
        ": 0 <100",
        ": 0 < abc",
        ": 0 < 1.5",
        ": 0 < -1",
        ": 0 < 100 FIL",
        ": 0 < 100\nretry: later",
        ": 0 < \n100",
        ": 0 < 18446744073709551616",
        ": 10 < 100",
    ];
    for tail in tails {
        let diagnostic = format!("{}{}", marker, tail);
        assert_eq!(read_asking_price(&diagnostic), None, "{:?}", tail);
    }
}

#[test]
fn asking_price_without_colon_is_read_from_the_whole() {
    assert_eq!(read_asking_price("0 < 5 storage price per epoch less than asking price"), None);
    assert_eq!(read_asking_price("0 < storage price per epoch less than asking price"), None);
}

#[test]
fn negotiation_starts_with_the_request_as_it_is() {
    let n = started(3);
    assert_eq!(n.attempts(), 0);
    assert_eq!(n.max_attempts(), 3);
    assert_eq!(n.request().storage_price_per_epoch(), 0);
    assert_eq!(n.request().provider(), "f01234");
}

#[test]
fn negotiation_without_an_attempt_is_exhausted_at_once() {
    assert!(matches!(
        Negotiation::start(fresh_request(), 0),
        Step::Fatal(Failure::RetriesExhausted)
    ));
}

#[test]
fn price_rejection_is_retried_at_the_asking_price() {
    let stderr =
        b"ERROR deal failed: storage price per epoch less than asking price: 0 < 100";
    let n = resubmitted(started(5).advance(rejected(stderr)));
    assert_eq!(n.request().storage_price_per_epoch(), 100);
    assert_eq!(n.attempts(), 1);
    assert_eq!(n.max_attempts(), 5);
}

#[test]
fn retry_changes_the_price_only() {
    let n = resubmitted(started(5).advance(asked(100)));
    let r = n.request();
    assert_eq!(r.provider(), "f01234");
    assert_eq!(r.http_url(), "http://gw/x");
    assert_eq!(r.commp_cid(), "baga123");
    assert_eq!(r.car_size(), 2048);
    assert_eq!(r.piece_size(), 1024);
    assert_eq!(r.payload_cid(), "bafy");
    assert!(!r.verified());
    assert_eq!(r.arguments()[14], "100");
    assert_eq!(r.arguments()[13], "--storage-price-per-epoch");
}

#[test]
fn unrelated_diagnostic_is_fatal_and_verbatim() {
    let stderr = b"Error: provider f01234 is not reachable\n  dial tcp: timeout\n";
    match started(5).advance(rejected(stderr)) {
        Step::Fatal(Failure::Deal(diagnostic)) => {
            assert_eq!(diagnostic, "Error: provider f01234 is not reachable\n  dial tcp: timeout\n")
        }
        other => panic!("{:?}", other),
    }
}

#[test]
fn empty_diagnostic_is_fatal() {
    match started(5).advance(rejected(b"")) {
        Step::Fatal(Failure::Deal(diagnostic)) => assert_eq!(diagnostic, ""),
        other => panic!("{:?}", other),
    }
}

#[test]
fn price_rejection_without_a_price_is_fatal_and_verbatim() {
    let stderr = b"storage price per epoch less than asking price: 0 < lots";
    match started(5).advance(rejected(stderr)) {
        Step::Fatal(Failure::Deal(diagnostic)) => {
            assert_eq!(diagnostic, "storage price per epoch less than asking price: 0 < lots")
        }
        other => panic!("{:?}", other),
    }
}

#[test]
fn diagnostic_that_is_not_text_is_fatal() {
    let stderr = b"storage price per epoch less than asking price: 0 < 100\xFF";
    assert!(matches!(started(5).advance(rejected(stderr)), Step::Fatal(Failure::Undecodable)));
}

#[test]
fn tool_that_did_not_start_is_fatal() {
    let event = Event::NotStarted("No such file or directory (os error 2)".to_string());
    match started(5).advance(event) {
        Step::Fatal(Failure::Process(cause)) => {
            assert_eq!(cause, "No such file or directory (os error 2)")
        }
        other => panic!("{:?}", other),
    }
}

#[test]
fn tool_that_did_not_exit_in_time_is_fatal() {
    assert!(matches!(started(5).advance(Event::TimedOut), Step::Fatal(Failure::TimedOut)));
}

#[test]
fn accepted_deal_is_read_from_the_report() {
    match started(5).advance(succeeded(&accepted())) {
        Step::Accepted(deal) => {
            assert_eq!(deal.deal_uuid(), "5e1b0c8e");
            assert_eq!(deal.storage_provider(), "f01234");
            assert_eq!(deal.client_wallet(), "f1abc");
            assert_eq!(deal.payload_cid(), "bafy");
            assert_eq!(deal.url(), "http://gw/x");
            assert_eq!(deal.commp_cid(), "baga123");
            assert_eq!(deal.start_epoch(), 100);
            assert_eq!(deal.end_epoch(), 200);
            assert_eq!(deal.provider_collateral(), "0");
        }
        other => panic!("{:?}", other),
    }
}

#[test]
fn success_ignores_the_diagnostic_stream() {
    let event = Event::Exited(ToolOutput {
        success: true,
        stdout: accepted(),
        stderr: b"storage price per epoch less than asking price: 0 < 100".to_vec(),
    });
    assert!(matches!(started(5).advance(event), Step::Accepted(_)));
}

#[test]
fn failure_ignores_the_output_stream() {
    let event = Event::Exited(ToolOutput {
        success: false,
        stdout: accepted(),
        stderr: b"no".to_vec(),
    });
    assert!(matches!(started(5).advance(event), Step::Fatal(Failure::Deal(_))));
}

#[test]
fn accepted_deal_with_a_broken_report_is_fatal() {
    let stdout = String::from_utf8(accepted()).unwrap().replace("200", "later");
    assert!(matches!(
        started(5).advance(succeeded(stdout.as_bytes())),
        Step::Fatal(Failure::Parse(Field::EndEpoch))
    ));
    assert!(matches!(
        started(5).advance(succeeded(b"")),
        Step::Fatal(Failure::Parse(Field::Stdout))
    ));
}

#[test]
fn prices_rise_from_run_to_run() {
    let mut n = started(6);
    let mut offered = vec![n.request().storage_price_per_epoch()];
    for price in [100usize, 100, 250, 4000] {
        n = resubmitted(n.advance(asked(price)));
        offered.push(n.request().storage_price_per_epoch());
    }
    assert_eq!(offered, vec![0, 100, 100, 250, 4000]);
    assert!(offered.windows(2).all(|w| w[0] <= w[1]));
    assert_eq!(n.attempts(), 4);
    assert!(matches!(n.advance(succeeded(&accepted())), Step::Accepted(_)));
}

#[test]
fn lower_asking_price_is_fatal_and_verbatim() {
    let n = resubmitted(started(5).advance(asked(100)));
    match n.advance(asked(50)) {
        Step::Fatal(Failure::Deal(diagnostic)) => assert_eq!(
            diagnostic,
            "Error: storage price per epoch less than asking price: 0 < 50\n"
        ),
        other => panic!("{:?}", other),
    }
    let n = resubmitted(started(5).advance(asked(100)));
    assert!(matches!(n.advance(asked(99)), Step::Fatal(Failure::Deal(_))));
    let n = resubmitted(started(5).advance(asked(1)));
    assert!(matches!(n.advance(asked(0)), Step::Fatal(Failure::Deal(_))));
}

#[test]
fn lower_asking_price_on_the_last_attempt_is_fatal_too() {
    let n = resubmitted(started(2).advance(asked(100)));
    assert!(matches!(n.advance(asked(50)), Step::Fatal(Failure::Deal(_))));
}

#[test]
fn same_asking_price_is_offered_again() {
    let n = resubmitted(started(5).advance(asked(0)));
    assert_eq!(n.request().storage_price_per_epoch(), 0);
    let n = resubmitted(n.advance(asked(100)));
    let n = resubmitted(n.advance(asked(100)));
    assert_eq!(n.request().storage_price_per_epoch(), 100);
    assert_eq!(n.attempts(), 3);
}

#[test]
fn price_never_falls_whatever_is_asked() {
    let quotes = [5usize, 3, 5, 0, 9, 9, 8, 1000, 7, usize::MAX, 1];
    for first in 0..quotes.len() {
        let mut step = Negotiation::start(fresh_request(), quotes.len() + 1);
        let mut last = 0;
        for k in 0..quotes.len() {
            step = match step {
                Step::Submit(n) => {
                    let price = n.request().storage_price_per_epoch();
                    assert!(last <= price, "{} after {}", price, last);
                    last = price;
                    n.advance(asked(quotes[(first + k) % quotes.len()]))
                }
                done => done,
            };
        }
    }
}

#[test]
fn retries_end_with_the_last_attempt() {
    let n = started(3);
    let n = resubmitted(n.advance(asked(10)));
    assert_eq!(n.attempts(), 1);
    let n = resubmitted(n.advance(asked(20)));
    assert_eq!(n.attempts(), 2);
    assert!(matches!(n.advance(asked(30)), Step::Fatal(Failure::RetriesExhausted)));
}

#[test]
fn single_attempt_is_never_retried() {
    assert!(matches!(started(1).advance(asked(10)), Step::Fatal(Failure::RetriesExhausted)));
    assert!(matches!(started(1).advance(succeeded(&accepted())), Step::Accepted(_)));
    assert!(matches!(started(1).advance(rejected(b"other")), Step::Fatal(Failure::Deal(_))));
}

#[test]
fn last_attempt_may_still_succeed_or_fail_for_good() {
    let n = resubmitted(started(2).advance(asked(10)));
    assert!(matches!(n.advance(succeeded(&accepted())), Step::Accepted(_)));
    let n = resubmitted(started(2).advance(asked(10)));
    assert!(matches!(n.advance(rejected(b"gone")), Step::Fatal(Failure::Deal(_))));
}

#[test]
fn many_attempts_are_counted() {
    let mut n = started(usize::MAX);
    for k in 1..=50usize {
        n = resubmitted(n.advance(asked(k)));
        assert_eq!(n.attempts(), k);
        assert_eq!(n.request().storage_price_per_epoch(), k);
    }
}

#[test]
fn negotiations_side_by_side_do_not_mix() {
    let alone_a = {
        let n = resubmitted(started(4).advance(asked(11)));
        resubmitted(n.advance(asked(22)))
    };
    let alone_b = resubmitted(started(2).advance(asked(700)));

    let a = started(4);
    let b = started(2);
    let a = resubmitted(a.advance(asked(11)));
    let b = resubmitted(b.advance(asked(700)));
    let a = resubmitted(a.advance(asked(22)));

    assert_eq!(a.request().storage_price_per_epoch(), alone_a.request().storage_price_per_epoch());
    assert_eq!(a.attempts(), alone_a.attempts());
    assert_eq!(a.request().arguments(), alone_a.request().arguments());
    assert_eq!(b.request().storage_price_per_epoch(), alone_b.request().storage_price_per_epoch());
    assert_eq!(b.attempts(), alone_b.attempts());
    assert_eq!(b.request().arguments(), alone_b.request().arguments());
    assert!(matches!(b.advance(asked(800)), Step::Fatal(Failure::RetriesExhausted)));
    assert!(matches!(a.advance(succeeded(&accepted())), Step::Accepted(_)));
}
