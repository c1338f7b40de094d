//! One request from end to end: where the content is fetched from, what the
//! piece-commitment tool made of it, and the negotiation that follows.

use crate::commitment::{commitment_of, parse_commitment_report, CommitmentResult, CommitmentView};
use crate::deal::{DealRequest, DealRequestView};
use crate::error::{Failure, FailureView, Field};
use crate::lines::{decode, lines, text_of};
use crate::negotiation::{first_step, Negotiation, Step};
use crate::number::{decimal, render_usize};
use crate::tool::{Event, EventView};
use vstd::prelude::*;

verus! {

/// What the service is set up with when it starts, and keeps as it is.
#[derive(Debug)]
pub struct Config {
    ipfs_gateway: String,
    miner_id: String,
    max_attempts: usize,
}

/// A [`Config`] as plain values.
pub struct ConfigView {
    pub ipfs_gateway: Seq<char>,
    pub miner_id: Seq<char>,
    pub max_attempts: nat,
}

impl View for Config {
    type V = ConfigView;

    closed spec fn view(&self) -> ConfigView {
        ConfigView {
            ipfs_gateway: self.ipfs_gateway@,
            miner_id: self.miner_id@,
            max_attempts: self.max_attempts as nat,
        }
    }
}

/// Where the gateway `ipfs_gateway` exports the content that `cid` names.
pub open spec fn export_url(ipfs_gateway: Seq<char>, cid: Seq<char>) -> Seq<char> {
    ipfs_gateway + "/api/v0/dag/export?arg="@ + cid
}

/// Why content that the gateway sent under the response status `status` is not
/// taken: none where the status is one of success, from 200 to 299, and else
/// the status.
pub open spec fn response_refused(status: u16) -> Option<FailureView> {
    if 200 <= status <= 299 {
        None
    } else {
        Some(FailureView::Fetch("unexpected response status "@ + decimal(status as nat)))
    }
}

/// The request with which the negotiation for the payload `cid` starts, once
/// the commitment over its content is known.
pub open spec fn first_request(
    config: ConfigView,
    cid: Seq<char>,
    commitment: CommitmentView,
) -> DealRequestView {
    DealRequestView {
        provider: config.miner_id,
        http_url: export_url(config.ipfs_gateway, cid),
        commp: commitment.commp_cid,
        car_size: commitment.car_file_size,
        piece_size: commitment.piece_size,
        payload_cid: cid,
        storage_price_per_epoch: 0,
        verified: false,
    }
}

/// What came of the piece-commitment tool: the commitment that it reported
/// where it succeeded, and else why there is none.
pub open spec fn commitment_outcome(event: EventView) -> Result<CommitmentView, FailureView> {
    match event {
        EventView::NotStarted(cause) => Err(FailureView::Process(cause)),
        EventView::TimedOut => Err(FailureView::TimedOut),
        EventView::Exited(output) => if output.success {
            match commitment_of(lines(output.stdout)) {
                Ok(commitment) => Ok(commitment),
                Err(field) => Err(FailureView::Parse(field)),
            }
        } else {
            match text_of(output.stderr) {
                Some(diagnostic) => Err(FailureView::Process(diagnostic)),
                None => Err(FailureView::Undecodable),
            }
        },
    }
}

impl Config {
    /// A configuration with the gateway to fetch from, the provider to ask,
    /// and the number of times that the deal tool may be run for one request.
    pub fn new(ipfs_gateway: String, miner_id: String, max_attempts: usize) -> (r: Self)
        ensures
            r@ == (ConfigView {
                ipfs_gateway: ipfs_gateway@,
                miner_id: miner_id@,
                max_attempts: max_attempts as nat,
            }),
    {
        Config { ipfs_gateway, miner_id, max_attempts }
    }

    /// The gateway to fetch from.
    pub fn ipfs_gateway(&self) -> (r: &str)
        ensures
            r@ == self@.ipfs_gateway,
    {
        self.ipfs_gateway.as_str()
    }

    /// The provider to ask.
    pub fn miner_id(&self) -> (r: &str)
        ensures
            r@ == self@.miner_id,
    {
        self.miner_id.as_str()
    }

    /// The number of times that the deal tool may be run for one request.
    pub fn max_attempts(&self) -> (r: usize)
        ensures
            r == self@.max_attempts,
    {
        self.max_attempts
    }

    /// Where the content that `cid` names is fetched from.
    pub fn export_url(&self, cid: &str) -> (r: String)
        ensures
            r@ == export_url(self@.ipfs_gateway, cid@),
    {
        let mut url = self.ipfs_gateway.clone();
        url.append("/api/v0/dag/export?arg=");
        url.append(cid);
        url
    }

    /// Starts the negotiation for the payload `cid`, once the commitment over
    /// its content is known.
    pub fn negotiate(&self, cid: &str, commitment: &CommitmentResult) -> (r: Step)
        ensures
            r@ == first_step(first_request(self@, cid@, commitment@), self@.max_attempts),
    {
        let request = DealRequest::new(
            self.miner_id.clone(),
            self.export_url(cid),
            cid.to_owned(),
            commitment,
        );
        Negotiation::start(request, self.max_attempts)
    }
}

/// Decides whether the content that the gateway sent under the response
/// status `status` is taken, and says why where it is not.
pub fn check_response(status: u16) -> (r: Option<Failure>)
    ensures
        match r {
            Some(failure) => response_refused(status) == Some(failure@),
            None => response_refused(status) is None,
        },
{
    if 200 <= status && status <= 299 {
        None
    } else {
        let mut cause = "unexpected response status ".to_owned();
        let digits = render_usize(status as usize);
        cause.append(digits.as_str());
        Some(Failure::Fetch(cause))
    }
}

/// Reads what came of the piece-commitment tool.
pub fn read_commitment(event: Event) -> (r: Result<CommitmentResult, Failure>)
    ensures
        match r {
            Ok(c) => commitment_outcome(event@) == Ok::<CommitmentView, FailureView>(c@),
            Err(e) => commitment_outcome(event@) == Err::<CommitmentView, FailureView>(e@),
        },
{
    match event {
        Event::NotStarted(cause) => Err(Failure::Process(cause)),
        Event::TimedOut => Err(Failure::TimedOut),
        Event::Exited(output) => {
            if output.success {
                match parse_commitment_report(output.stdout.as_slice()) {
                    Ok(commitment) => Ok(commitment),
                    Err(field) => Err(Failure::Parse(field)),
                }
            } else {
                match decode(output.stderr.as_slice()) {
                    Some(diagnostic) => Err(Failure::Process(diagnostic.to_owned())),
                    None => Err(Failure::Undecodable),
                }
            }
        },
    }
}

} // verus!
