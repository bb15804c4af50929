use home_automation::affector::Affector;
use home_automation::codec::DecodeError;
use home_automation::large_bedroom::{self, bed};
use home_automation::rpc::{
    actuate_outcome, list_outcome, next_backoff, should_retry, update_outcome, AffectorError,
    ClientError, Kind, Request, Response, INITIAL_BACKOFF_MS, MAX_BACKOFF_MS,
};
use home_automation::subscriber::{SubMessage, SubscribeError};
use home_automation::Reading;

#[test]
fn actuate_responses() {
    assert_eq!(actuate_outcome(Response::Actuate(Ok(()))), Ok(()));
    assert_eq!(
        actuate_outcome(Response::Actuate(Err(AffectorError::Offline))),
        Err(ClientError::Request(AffectorError::Offline))
    );
    assert_eq!(
        actuate_outcome(Response::ListAffectors(vec![])),
        Err(ClientError::IncorrectResponse { request: Kind::Actuate, response: Kind::ListAffectors })
    );
}

#[test]
fn list_responses() {
    let list = vec![Affector::Sps30FanClean];
    assert_eq!(list_outcome(Response::ListAffectors(list.clone())), Ok(list));
    assert_eq!(
        list_outcome(Response::Actuate(Ok(()))),
        Err(ClientError::IncorrectResponse { request: Kind::ListAffectors, response: Kind::Actuate })
    );
}

#[test]
fn subscribed_responses() {
    let r = Reading::LargeBedroom(large_bedroom::Reading::Bed(bed::Reading::Co2(500)));
    assert!(matches!(
        update_outcome(Response::SubUpdate(SubMessage::Reading(r))),
        Ok(SubMessage::Reading(x)) if x == r
    ));
    assert!(matches!(
        update_outcome(Response::Actuate(Ok(()))),
        Err(ClientError::IncorrectResponse { request: Kind::Subscribe, response: Kind::Actuate })
    ));
    assert_eq!(Request::Actuate(Affector::Mhz14Calibrate).kind(), Kind::Actuate);
    assert_eq!(Request::Subscribe.kind(), Kind::Subscribe);
}

#[test]
fn retry_and_backoff() {
    assert!(should_retry(&SubscribeError::ConnEnded));
    assert!(!should_retry(&SubscribeError::DecodeFailed(DecodeError::CorruptEncoding)));
    assert_eq!(next_backoff(None), INITIAL_BACKOFF_MS);
    assert_eq!(next_backoff(Some(5000)), 10_000);
    assert_eq!(next_backoff(Some(40_000)), MAX_BACKOFF_MS);
    assert_eq!(next_backoff(Some(MAX_BACKOFF_MS)), MAX_BACKOFF_MS);
}
