use storage_deal::commitment::parse_commitment_report;
use storage_deal::error::{Failure, Field};
use storage_deal::negotiation::Step;
use storage_deal::pipeline::{check_response, read_commitment, Config};
use storage_deal::tool::{Event, ToolOutput};

fn config(max_attempts: usize) -> Config {
    Config::new("https://ipfs.io".to_string(), "f01234".to_string(), max_attempts)
}

#[test]
fn config_keeps_what_it_was_given() {
    let c = config(8);
    assert_eq!(c.ipfs_gateway(), "https://ipfs.io");
    assert_eq!(c.miner_id(), "f01234");
    assert_eq!(c.max_attempts(), 8);
}

#[test]
fn export_url_names_the_content() {
    assert_eq!(
        config(8).export_url("bafybeigdyr"),
        "https://ipfs.io/api/v0/dag/export?arg=bafybeigdyr"
    );
    assert_eq!(config(8).export_url(""), "https://ipfs.io/api/v0/dag/export?arg=");
    let c = Config::new(String::new(), String::new(), 1);
    assert_eq!(c.export_url("x"), "/api/v0/dag/export?arg=x");
}

#[test]
fn negotiation_is_opened_on_the_commitment() {
    let commitment =
        parse_commitment_report(b"CommP CID: baga123\nPiece size: 1024\nCar file size: 2048\n")
            .unwrap();
    match config(8).negotiate("bafy", &commitment) {
        Step::Submit(n) => {
            assert_eq!(n.attempts(), 0);
            assert_eq!(n.max_attempts(), 8);
            let r = n.request();
            assert_eq!(r.provider(), "f01234");
            assert_eq!(r.http_url(), "https://ipfs.io/api/v0/dag/export?arg=bafy");
            assert_eq!(r.commp_cid(), "baga123");
            assert_eq!(r.car_size(), 2048);
            assert_eq!(r.piece_size(), 1024);
            assert_eq!(r.payload_cid(), "bafy");
            assert_eq!(r.storage_price_per_epoch(), 0);
            assert!(!r.verified());
        }
        other => panic!("{:?}", other),
    }
}

#[test]
fn negotiation_is_not_opened_without_an_attempt() {
    let commitment =
        parse_commitment_report(b"CommP CID: baga123\nPiece size: 1024\nCar file size: 2048\n")
            .unwrap();
    assert!(matches!(
        config(0).negotiate("bafy", &commitment),
        Step::Fatal(Failure::RetriesExhausted)
    ));
}

#[test]
fn commitment_is_read_from_a_tool_that_succeeded() {
    let event = Event::Exited(ToolOutput {
        success: true,
        stdout: b"CommP CID: baga123\nPiece size: 1024\nCar file size: 2048\n".to_vec(),
        stderr: b"warning: slow disk".to_vec(),
    });
    let c = read_commitment(event).unwrap();
    assert_eq!(c.commp_cid(), "baga123");
    assert_eq!(c.piece_size(), 1024);
    assert_eq!(c.car_file_size(), 2048);
}

#[test]
fn commitment_tool_that_failed_gives_its_diagnostic() {
    let event = Event::Exited(ToolOutput {
        success: false,
        stdout: b"CommP CID: baga123\nPiece size: 1024\nCar file size: 2048\n".to_vec(),
        stderr: b"open /tmp/x: no such file\n".to_vec(),
    });
    match read_commitment(event) {
        Err(Failure::Process(diagnostic)) => assert_eq!(diagnostic, "open /tmp/x: no such file\n"),
        other => panic!("{:?}", other),
    }
}

#[test]
fn commitment_tool_that_failed_with_bytes_that_are_not_text() {
    let event = Event::Exited(ToolOutput {
        success: false,
        stdout: Vec::new(),
        stderr: vec![0x66, 0xFF],
    });
    assert!(matches!(read_commitment(event), Err(Failure::Undecodable)));
}

#[test]
fn commitment_tool_that_did_not_start() {
    match read_commitment(Event::NotStarted("boostx: not found".to_string())) {
        Err(Failure::Process(cause)) => assert_eq!(cause, "boostx: not found"),
        other => panic!("{:?}", other),
    }
}

#[test]
fn commitment_report_that_cannot_be_read() {
    let event = Event::Exited(ToolOutput {
        success: true,
        stdout: b"CommP CID: baga123\nPiece size: big\n".to_vec(),
        stderr: Vec::new(),
    });
    assert!(matches!(read_commitment(event), Err(Failure::Parse(Field::PieceSize))));
}

#[test]
fn failures_are_described() {
    assert_eq!(Failure::Fetch("connection refused".to_string()).description(), "connection refused");
    assert_eq!(Failure::Process("exit 2".to_string()).description(), "exit 2");
    assert_eq!(Failure::Deal("Error: no\n".to_string()).description(), "Error: no\n");
    assert_eq!(Failure::Parse(Field::PieceSize).description(), "Resolve piece size failure");
    assert_eq!(Failure::Parse(Field::Commp).description(), "Resolve CommP failure");
    assert_eq!(Failure::Undecodable.description(), "diagnostic stream is not valid UTF-8");
    assert_eq!(Failure::RetriesExhausted.description(), "storage price retries exhausted");
    assert_eq!(Failure::TimedOut.description(), "tool did not exit in time");
}

#[test]
fn commitment_tool_that_did_not_exit_in_time() {
    assert!(matches!(read_commitment(Event::TimedOut), Err(Failure::TimedOut)));
}

#[test]
fn response_of_success_is_taken() {
    for status in [200u16, 201, 204, 206, 299] {
        assert!(check_response(status).is_none(), "{}", status);
    }
}

#[test]
fn response_without_success_is_refused() {
    for status in [0u16, 100, 199, 300, 301, 304, 400, 404, 500, 502, 65535] {
        match check_response(status) {
            Some(Failure::Fetch(cause)) => {
                assert_eq!(cause, format!("unexpected response status {}", status))
            }
            other => panic!("{}: {:?}", status, other),
        }
    }
}
