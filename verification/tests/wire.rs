use spendability_pir::client::error::{P2pClientError, SpendClientError, TransportError};
use spendability_pir::client::error::WitnessClientError;
use spendability_pir::client::session::{
    check_request, classify_reply, is_fatal, network_label, ConnectionSlot, Exchange, Reply,
};
use spendability_pir::client::transport::{base_url, http_request, is_unavailable, Operation};
use spendability_pir::p2p::{
    frames, Message, MessageDecoder, P2PError, SubsystemHealth, FRAME_FLAG_MORE,
    FRAME_PAYLOAD_BYTES, MAX_MESSAGE_BYTES, PIR_CAPABILITY, PIR_SERVICE_ID, PIR_STREAM_KIND,
    PIR_STREAM_VERSION,
};
use spendability_pir::protocol::{
    ServerPhase, ZcashNetwork, CONFIRMATION_DEPTH, DATASET_VERSION, IRONWOOD_POOL,
};
use spendability_pir::server::p2p::{accept_request, answer, Reject};

#[test]
fn ironwood_dataset_identity_matches_vote_nullifier_pir() {
    assert_eq!(IRONWOOD_POOL, "ironwood");
    assert_eq!(DATASET_VERSION, 2);
    assert_eq!(ZcashNetwork::Main.as_str().to_string(), "main");
    assert_eq!("test".parse(), Ok(ZcashNetwork::Test));
}

#[test]
fn unknown_network_is_named_in_quotes() {
    assert_eq!(
        "reg\"test".parse::<ZcashNetwork>(),
        Err("unsupported Zcash network \"reg\\\"test\"; expected main or test".to_string())
    );
    assert_eq!("main".parse(), Ok(ZcashNetwork::Main));
    assert_eq!(CONFIRMATION_DEPTH, 10);
}

#[test]
fn v1_contract_and_reassembly() {
    let messages = [
        Message::HealthReq,
        Message::NullifierMetadataReq,
        Message::NullifierParamsReq,
        Message::NullifierQueryReq,
        Message::WitnessMetadataReq,
        Message::WitnessBroadcastReq,
        Message::WitnessParamsReq,
        Message::WitnessQueryReq,
        Message::HealthRes,
        Message::NullifierMetadataRes,
        Message::NullifierParamsRes,
        Message::NullifierQueryRes,
        Message::WitnessMetadataRes,
        Message::WitnessBroadcastRes,
        Message::WitnessParamsRes,
        Message::WitnessQueryRes,
        Message::ErrRes,
    ];
    for (number, message) in messages.into_iter().enumerate() {
        assert_eq!(u16::from(message), number as u16);
        assert_eq!(Message::try_from(number as u16).unwrap(), message);
    }

    let mut decoder = MessageDecoder::default();
    assert_eq!(
        decoder.push(0, 0, vec![]).unwrap(),
        Some((Message::HealthReq, vec![]))
    );
    assert_eq!(
        decoder.push(3, 0, vec![1]).unwrap(),
        Some((Message::NullifierQueryReq, vec![1]))
    );
    assert!(decoder
        .push(3, FRAME_FLAG_MORE, vec![1, 2])
        .unwrap()
        .is_none());
    assert_eq!(
        decoder.push(3, 0, vec![3]).unwrap(),
        Some((Message::NullifierQueryReq, vec![1, 2, 3]))
    );
    assert!(matches!(decoder.push(3, FRAME_FLAG_MORE, vec![]), Ok(None)));
    assert!(matches!(
        decoder.push(4, 0, vec![]),
        Err(P2PError::MessageTypeChanged)
    ));

    let mut decoder = MessageDecoder::default();
    assert!(matches!(
        decoder.push(0, 2, vec![]),
        Err(P2PError::InvalidFlags(2))
    ));
    assert!(decoder
        .push(0, FRAME_FLAG_MORE, vec![0; MAX_MESSAGE_BYTES])
        .unwrap()
        .is_none());
    assert!(matches!(
        decoder.push(0, 0, vec![0]),
        Err(P2PError::MessageTooLarge)
    ));
}

#[test]
fn decoder_keeps_its_message_after_a_refusal() {
    let mut decoder = MessageDecoder::default();
    assert!(matches!(
        decoder.push(17, 0, vec![]),
        Err(P2PError::InvalidMessageType(17))
    ));
    assert!(decoder.push(7, FRAME_FLAG_MORE, vec![1]).unwrap().is_none());
    assert!(decoder.push(6, 0, vec![9]).is_err());
    assert_eq!(
        decoder.push(7, 0, vec![2]).unwrap(),
        Some((Message::WitnessQueryReq, vec![1, 2]))
    );
}

#[test]
fn frames_of_a_message_reassemble() {
    for len in [0, 1, FRAME_PAYLOAD_BYTES, FRAME_PAYLOAD_BYTES + 1, 2 * FRAME_PAYLOAD_BYTES + 5] {
        let payload: Vec<u8> = (0..len).map(|i| i as u8).collect();
        let list = frames(Message::WitnessQueryReq, payload.clone());
        let expected = if len == 0 {
            1
        } else {
            len.div_ceil(FRAME_PAYLOAD_BYTES)
        };
        assert_eq!(list.len(), expected);
        let mut decoder = MessageDecoder::default();
        let last = list.len() - 1;
        for (i, frame) in list.into_iter().enumerate() {
            assert_eq!(frame.message_type, 7);
            assert_eq!(frame.flags, if i == last { 0 } else { FRAME_FLAG_MORE });
            assert!(frame.payload.len() <= FRAME_PAYLOAD_BYTES);
            let out = decoder
                .push(frame.message_type, frame.flags, frame.payload)
                .unwrap();
            if i == last {
                assert_eq!(out, Some((Message::WitnessQueryReq, payload.clone())));
            } else {
                assert!(out.is_none());
            }
        }
    }
}

#[test]
fn wire_constants() {
    assert_eq!(PIR_SERVICE_ID, "zakura.spendability-pir.v1");
    assert_eq!(PIR_CAPABILITY, 1 << 16);
    assert_eq!(PIR_STREAM_KIND, 64);
    assert_eq!(PIR_STREAM_VERSION, 1);
    assert_eq!(MAX_MESSAGE_BYTES, 8 * 1024 * 1024);
    assert_eq!(FRAME_PAYLOAD_BYTES, 1024 * 1024 - 8);
}

#[test]
fn health_tells_heights_while_syncing() {
    let syncing = SubsystemHealth::from(&ServerPhase::Syncing {
        current_height: 3,
        target_height: 9,
    });
    assert_eq!(syncing.phase, "syncing");
    assert_eq!(syncing.current_height, Some(3));
    assert_eq!(syncing.target_height, Some(9));
    let serving = SubsystemHealth::of(&ServerPhase::Serving);
    assert_eq!(serving.phase, "serving");
    assert_eq!(serving.current_height, None);
    assert_eq!(serving.target_height, None);
}

#[test]
fn wire_errors_have_texts() {
    let texts = [
        (P2PError::InvalidMessageType(17), "invalid message type: 17"),
        (P2PError::InvalidFlags(2), "invalid frame flags: 2"),
        (
            P2PError::MessageTypeChanged,
            "message type changed before the final frame",
        ),
        (P2PError::MessageTooLarge, "message exceeds 8388608 bytes"),
        (P2PError::ServiceUnavailable, "service currently unavailable"),
        (P2PError::SerdeError("a".to_owned()), "serde error: a"),
        (P2PError::QueryError("b".to_owned()), "PIR query failed: b"),
    ];
    for (error, text) in texts {
        assert_eq!(error.message(), text);
    }
    assert_eq!(
        P2pClientError::InvalidRequest(Message::ErrRes).message(),
        "invalid PIR request message: ErrRes"
    );
    assert_eq!(
        P2pClientError::Disconnected.message(),
        "no PIR provider is connected"
    );
    assert_eq!(P2pClientError::Timeout.message(), "PIR request timed out");
    assert_eq!(
        P2pClientError::Remote(P2PError::ServiceUnavailable).message(),
        "PIR provider error: service currently unavailable"
    );
    assert_eq!(
        P2pClientError::Start("x".to_owned()).message(),
        "failed to start Zakura: x"
    );
}

#[test]
fn only_fitting_requests_are_sent() {
    assert!(check_request(Message::HealthReq, MAX_MESSAGE_BYTES).is_ok());
    assert!(matches!(
        check_request(Message::HealthRes, 0),
        Err(P2pClientError::InvalidRequest(Message::HealthRes))
    ));
    match check_request(Message::WitnessQueryReq, MAX_MESSAGE_BYTES + 1) {
        Err(P2pClientError::Protocol(reason)) => {
            assert_eq!(reason, "message exceeds 8388608 bytes")
        }
        other => panic!("unexpected {other:?}"),
    }
}

#[test]
fn replies_are_sorted_out() {
    assert!(matches!(
        classify_reply(Message::HealthReq, Message::HealthRes, vec![1]),
        Ok(Reply::Answer(bytes)) if bytes == vec![1]
    ));
    assert!(matches!(
        classify_reply(Message::HealthReq, Message::ErrRes, vec![2]),
        Ok(Reply::Failure(bytes)) if bytes == vec![2]
    ));
    match classify_reply(Message::HealthReq, Message::WitnessQueryRes, vec![]) {
        Err(P2pClientError::Protocol(reason)) => {
            assert_eq!(reason, "expected HealthRes, received WitnessQueryRes")
        }
        other => panic!("unexpected {other:?}"),
    }
    assert!(matches!(
        classify_reply(Message::HealthRes, Message::HealthRes, vec![]),
        Err(P2pClientError::InvalidRequest(Message::HealthRes))
    ));
}

#[test]
fn exchange_reassembles_a_fragmented_response() {
    let mut exchange = Exchange::new(Message::NullifierQueryReq);
    let payload = vec![9u8; FRAME_PAYLOAD_BYTES + 1];
    let list = frames(Message::NullifierQueryRes, payload.clone());
    assert_eq!(list.len(), 2);
    let mut replies = Vec::new();
    for frame in list {
        if let Some(reply) = exchange
            .on_frame(frame.message_type, frame.flags, frame.payload)
            .unwrap()
        {
            replies.push(reply);
        }
    }
    assert_eq!(replies.len(), 1);
    assert!(matches!(&replies[0], Reply::Answer(bytes) if *bytes == payload));
    match exchange.on_frame(11, 3, vec![]) {
        Err(P2pClientError::Protocol(reason)) => assert_eq!(reason, "invalid frame flags: 3"),
        other => panic!("unexpected {other:?}"),
    }
}

#[test]
fn broken_connections_are_fatal() {
    assert!(is_fatal(&P2pClientError::Disconnected));
    assert!(is_fatal(&P2pClientError::Timeout));
    assert!(is_fatal(&P2pClientError::Protocol(String::new())));
    assert!(!is_fatal(&P2pClientError::Remote(P2PError::ServiceUnavailable)));
    assert!(!is_fatal(&P2pClientError::InvalidRequest(Message::ErrRes)));
}

#[test]
fn newest_connection_takes_requests() {
    let mut slot = ConnectionSlot::new();
    assert!(slot.offer(vec![1], 5));
    assert!(!slot.offer(vec![2], 5));
    assert!(!slot.offer(vec![2], 4));
    assert!(slot.owns(&vec![1], 5));
    assert!(slot.offer(vec![2], 6));
    assert!(!slot.owns(&vec![1], 5));
    assert!(!slot.remove(&vec![1], 5));
    assert!(slot.remove(&vec![2], 6));
    assert!(!slot.owns(&vec![2], 6));
    assert_eq!(network_label(ZcashNetwork::Main), "Mainnet");
    assert_eq!(network_label(ZcashNetwork::Test), "Testnet");
}

#[test]
fn operations_map_to_requests_and_urls() {
    let base = base_url("http://host:1/nullifier//");
    assert_eq!(base, "http://host:1/nullifier");
    assert_eq!(base_url("///"), "");
    let query = http_request(&base, Operation::NullifierQuery);
    assert!(query.post);
    assert_eq!(query.url, "http://host:1/nullifier/query");
    let broadcast = http_request(&base, Operation::WitnessBroadcast);
    assert!(!broadcast.post);
    assert_eq!(broadcast.url, "http://host:1/nullifier/broadcast");
    assert_eq!(Operation::WitnessParams.path(), "params");
    assert_eq!(Operation::NullifierMetadata.path(), "metadata");
    assert_eq!(Operation::WitnessQuery.message(), Message::WitnessQueryReq);
    assert!(Operation::WitnessQuery.is_query());
    assert!(!Operation::WitnessMetadata.is_query());
    assert!(is_unavailable(503));
    assert!(!is_unavailable(500));
}

#[test]
fn unavailable_servers_are_told_apart() {
    assert!(matches!(
        SpendClientError::from_transport(TransportError::Unavailable),
        SpendClientError::ServerUnavailable
    ));
    assert!(matches!(
        WitnessClientError::from_transport(TransportError::P2p(P2pClientError::Remote(
            P2PError::ServiceUnavailable
        ))),
        WitnessClientError::ServerUnavailable
    ));
    assert!(matches!(
        SpendClientError::from_transport(TransportError::P2p(P2pClientError::Timeout)),
        SpendClientError::P2p(P2pClientError::Timeout)
    ));
    match WitnessClientError::from_transport(TransportError::Http("boom".to_owned())) {
        WitnessClientError::Http(reason) => assert_eq!(reason, "boom"),
        other => panic!("unexpected {other:?}"),
    }
    assert_eq!(
        WitnessClientError::PositionOutsideWindow(7, 1, 3).message(),
        "position 7 is outside the server's PIR window (shards 1..3)"
    );
    assert_eq!(
        WitnessClientError::VerificationFailed(7).message(),
        "witness verification failed for position 7: computed root does not match anchor"
    );
    assert_eq!(
        SpendClientError::InvalidParams("x".to_owned()).message(),
        "invalid params: x"
    );
}

#[test]
fn servers_answer_single_frame_requests() {
    assert_eq!(accept_request(6, 0).unwrap(), Message::WitnessParamsReq);
    for (message_type, flags, text) in [
        (6, 1, "request flags must be zero, received 1"),
        (99, 0, "invalid message type: 99"),
        (14, 0, "expected a request message, received 14"),
    ] {
        match accept_request(message_type, flags) {
            Err(Reject::Protocol(reason)) => assert_eq!(reason, text),
            other => panic!("unexpected {other:?}"),
        }
    }
    let frame = answer(Message::WitnessParamsReq, false, vec![1, 2]).unwrap();
    assert_eq!(frame.message_type, u16::from(Message::WitnessParamsRes));
    assert_eq!(frame.flags, 0);
    assert_eq!(frame.payload, vec![1, 2]);
    let failure = answer(Message::WitnessParamsReq, true, vec![]).unwrap();
    assert_eq!(failure.message_type, 16);
    match answer(Message::HealthReq, false, vec![0; FRAME_PAYLOAD_BYTES + 1]) {
        Err(Reject::Local(reason)) => assert_eq!(
            reason,
            "response payload is 1048569 bytes, exceeding negotiated cap of 1048568 bytes"
        ),
        other => panic!("unexpected {other:?}"),
    }
}

#[test]
fn requests_and_answers_are_understood() {
    for request in [Message::WitnessParamsReq, Message::HealthReq] {
        let sent = frames(request, vec![4, 5]);
        assert_eq!(sent.len(), 1);
        assert_eq!(
            accept_request(sent[0].message_type, sent[0].flags).unwrap(),
            request
        );
        for failed in [false, true] {
            let frame = answer(request, failed, vec![7, 8]).unwrap();
            let reply = Exchange::new(request)
                .on_frame(frame.message_type, frame.flags, frame.payload)
                .unwrap();
            match reply {
                Some(Reply::Answer(bytes)) => assert!(!failed && bytes == vec![7, 8]),
                Some(Reply::Failure(bytes)) => assert!(failed && bytes == vec![7, 8]),
                None => panic!("one frame is the whole answer"),
            }
        }
    }
}
