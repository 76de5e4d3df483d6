use corelib::errors::{Error, ProtocolError};
use corelib::net::message::{deserialize, serialize, Message};
use corelib::net::protocol::{
    Command, Header, Request, Response, StatusCode, SupportedVersions, VERSION,
};
use corelib::test_utils::create_mock_transaction;

#[test]
fn test_request_serialization_deserialization() {
    let message = Message::BlockConfirmation("BlockConfirmed".to_string());
    let request = Request::new(Command::Post, Some(message)).unwrap();

    let serialized = request.to_bytes().unwrap();
    let deserialized = Request::from_bytes(&serialized).unwrap();

    assert_eq!(request.command(), deserialized.command());
    assert_eq!(
        request.payload().is_some(),
        deserialized.payload().is_some()
    );
}

#[test]
fn test_response_serialization_deserialization() {
    let message = Message::PeerIntroduction("NewPeer123".to_string());
    let response = Response::new(StatusCode::OK, Some(message.clone())).unwrap();

    let serialized = response.to_bytes().unwrap();
    let deserialized = Response::from_bytes(&serialized).unwrap();

    assert_ne!(response.status(), &StatusCode::NotFound);
    assert_eq!(response.status(), deserialized.status());
    assert_eq!(
        response.payload().is_some(),
        deserialized.payload().is_some()
    );
    if let Some(Message::PeerIntroduction(ref deserialized_content)) = deserialized.payload() {
        assert_eq!(deserialized_content, "NewPeer123");
    } else {
        panic!("Payload did not match expected PeerIntroduction content");
    }
}

#[test]
fn test_empty_payload_request() -> Result<(), Error> {
    let request = Request::new(Command::Get, None)?;

    let serialized = request.to_bytes()?;
    let deserialized = Request::from_bytes(&serialized)?;

    assert_eq!(request.command(), deserialized.command());
    assert!(deserialized.payload().is_none());
    Ok(())
}

#[test]
fn test_empty_payload_response() -> Result<(), Error> {
    let response = Response::new(StatusCode::NotFound, None)?;

    let serialized = response.to_bytes()?;
    let deserialized = Response::from_bytes(&serialized)?;

    assert_eq!(response.status(), deserialized.status());
    assert!(deserialized.payload().is_none());
    Ok(())
}

#[test]
fn request_bytes_are_header_command_payload() {
    let request = Request::new(Command::Post, Some(Message::BlockRequest(0x0102))).unwrap();
    assert_eq!(
        request.to_bytes().unwrap(),
        vec![0, 1, 0, 9, 3, 5, 2, 1, 0, 0, 0, 0, 0, 0]
    );
    let empty = Response::new(StatusCode::Error, None).unwrap();
    assert_eq!(empty.to_bytes().unwrap(), vec![0, 1, 0, 0, 2]);
}

#[test]
fn header_bytes_are_big_endian() {
    let header = Header::new(0x1234);
    let mut buffer = vec![9u8];
    header.to_bytes(&mut buffer).unwrap();
    assert_eq!(buffer, vec![9, 0, 1, 0x12, 0x34]);
    let back = Header::from_bytes(&buffer[1..]).unwrap();
    assert_eq!(back, header);
    assert_eq!(back.content_size(), 0x1234);
    assert_eq!(back.version(), 1);
    assert_eq!(VERSION.as_u16(), 1);
    assert_eq!(SupportedVersions::default().as_u16(), 1);
}

#[test]
fn header_errors() {
    assert_eq!(
        Header::from_bytes(&[0, 1, 0]),
        Err(Error::Protocol(ProtocolError::InvalidMessageFormat))
    );
    assert_eq!(
        Header::from_bytes(&[1, 2, 0, 0]),
        Err(Error::Protocol(ProtocolError::UnknownVersion(0x0102)))
    );
}

fn request_error(bytes: &[u8]) -> Error {
    match Request::from_bytes(bytes) {
        Ok(_) => panic!("accepted"),
        Err(e) => e,
    }
}

fn response_error(bytes: &[u8]) -> Error {
    match Response::from_bytes(bytes) {
        Ok(_) => panic!("accepted"),
        Err(e) => e,
    }
}

#[test]
fn frame_errors() {
    assert_eq!(
        request_error(&[0, 1, 0, 0]),
        Error::Protocol(ProtocolError::InvalidMessageFormat)
    );
    assert_eq!(
        request_error(&[0, 2, 0, 0, 1]),
        Error::Protocol(ProtocolError::UnknownVersion(2))
    );
    assert_eq!(
        request_error(&[0, 1, 0, 0, 4]),
        Error::Protocol(ProtocolError::UnsupportedCommand(4))
    );
    assert_eq!(
        request_error(&[0, 1, 0, 0, 0]),
        Error::Protocol(ProtocolError::UnsupportedCommand(0))
    );
    assert_eq!(
        response_error(&[0, 1, 0, 0, 3]),
        Error::Protocol(ProtocolError::UnsupportedStatusCode(3))
    );
    assert_eq!(
        request_error(&[0, 1, 0, 2, 1, 8]),
        Error::Protocol(ProtocolError::HeaderMismatch)
    );
    assert_eq!(
        request_error(&[0, 1, 0, 0, 1, 8]),
        Error::Protocol(ProtocolError::HeaderMismatch)
    );
    assert_eq!(
        request_error(&[0, 1, 0, 1, 1, 9]),
        Error::Protocol(ProtocolError::SerializationError)
    );
    assert_eq!(
        response_error(&[0, 1, 0, 2, 0, 8, 8]),
        Error::Protocol(ProtocolError::SerializationError)
    );
}

#[test]
fn commands_and_statuses_by_byte() {
    assert_eq!(Command::try_from(1), Ok(Command::Ping));
    assert_eq!(Command::try_from(2), Ok(Command::Get));
    assert_eq!(Command::try_from(3), Ok(Command::Post));
    assert_eq!(Command::try_from(9), Err(ProtocolError::UnsupportedCommand(9)));
    assert_eq!(Command::Post.as_u8(), 3);
    assert_eq!(StatusCode::try_from(0), Ok(StatusCode::OK));
    assert_eq!(StatusCode::try_from(1), Ok(StatusCode::NotFound));
    assert_eq!(StatusCode::try_from(2), Ok(StatusCode::Error));
    assert_eq!(StatusCode::try_from(7), Err(ProtocolError::UnsupportedStatusCode(7)));
    assert_eq!(StatusCode::NotFound.as_u8(), 1);
}

fn round_trip(message: Message) {
    let mut bytes = Vec::new();
    serialize(&message, &mut bytes).unwrap();
    assert_eq!(deserialize(&bytes), Ok(message.clone()));
    let mut longer = bytes.clone();
    longer.push(0);
    assert_eq!(
        deserialize(&longer),
        Err(Error::Protocol(ProtocolError::SerializationError))
    );
    assert_eq!(
        deserialize(&bytes[..bytes.len() - 1]),
        Err(Error::Protocol(ProtocolError::SerializationError))
    );
    let request = Request::new(Command::Post, Some(message.clone())).unwrap();
    let back = Request::from_bytes(&request.to_bytes().unwrap()).unwrap();
    assert_eq!(back.payload(), &Some(message));
}

#[test]
fn every_message_round_trips() {
    let (txn, _) = create_mock_transaction(1000, 990).unwrap();
    let block = corelib::block::Block::new(3, vec![txn.clone()], "prev".to_string(), 4).unwrap();
    round_trip(Message::PaymentTransaction(txn));
    round_trip(Message::Utxo(vec!["a".to_string(), "".to_string(), "héllo".to_string()]));
    round_trip(Message::BlockProposal(block.clone()));
    round_trip(Message::BlockConfirmation("ok".to_string()));
    round_trip(Message::PeerIntroduction("peer".to_string()));
    round_trip(Message::BlockRequest(u64::MAX));
    round_trip(Message::BlockResponse(block));
    round_trip(Message::InvalidTransactionAlert("bad".to_string()));
    round_trip(Message::Ping);
}

#[test]
fn message_bytes_match_borsh() {
    let mut bytes = Vec::new();
    serialize(&Message::Utxo(vec!["ab".to_string(), "c".to_string()]), &mut bytes).unwrap();
    let mut expected = vec![1u8];
    expected.extend(borsh::to_vec(&vec!["ab".to_string(), "c".to_string()]).unwrap());
    assert_eq!(bytes, expected);

    let mut bytes = vec![7u8];
    serialize(&Message::PeerIntroduction("héllo".to_string()), &mut bytes).unwrap();
    let mut expected = vec![7u8, 4u8];
    expected.extend(borsh::to_vec(&"héllo".to_string()).unwrap());
    assert_eq!(bytes, expected);

    let mut bytes = Vec::new();
    serialize(&Message::Ping, &mut bytes).unwrap();
    assert_eq!(bytes, vec![8u8]);
}

#[test]
fn long_payload_is_announced_by_its_low_bits() {
    let text = "x".repeat(70_000);
    let request = Request::new(Command::Post, Some(Message::PeerIntroduction(text))).unwrap();
    let bytes = request.to_bytes().unwrap();
    assert_eq!(bytes.len(), 5 + 1 + 4 + 70_000);
    assert_eq!(&bytes[..4], &[0, 1, 0x11, 0x75]);
    assert_eq!(
        request_error(&bytes),
        Error::Protocol(ProtocolError::HeaderMismatch)
    );
}
