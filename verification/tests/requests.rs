use rtipc::{
    create_request, create_response, parse_request, parse_response, request_fits, ByteOrder,
    ChannelAttr, GroupAttr, HeaderError, Host, NonZeroSize, RequestError, TransferError,
};

fn little() -> Host {
    Host::new(64, ByteOrder::Little).unwrap()
}

fn big() -> Host {
    Host::new(64, ByteOrder::Big).unwrap()
}

fn channel(additional: usize, size: usize, eventfd: bool, info: &[u8]) -> ChannelAttr {
    ChannelAttr {
        additional_messages: additional,
        message_size: NonZeroSize::new(size).unwrap(),
        eventfd,
        info: info.to_vec(),
    }
}

fn group() -> GroupAttr {
    GroupAttr {
        producers: vec![channel(1, 16, true, &[0xaa])],
        consumers: vec![channel(0, 4, false, &[0xbb, 0xcc])],
        info: vec![1, 2, 3],
    }
}

fn little_request() -> Vec<u8> {
    vec![
        0x0c, 0x1f, 1, 0, 64, 0, 4, 0, // header
        3, 0, 0, 0, 1, 0, 0, 0, 1, 0, 0, 0, // group info, producers, consumers
        1, 0, 0, 0, 16, 0, 0, 0, 1, 0, 0, 0, 1, 0, 0, 0, // what is pushed to
        0, 0, 0, 0, 4, 0, 0, 0, 0, 0, 0, 0, 2, 0, 0, 0, // what is popped from
        1, 2, 3, 0xaa, 0xbb, 0xcc, // infos
    ]
}

fn refused(request: &[u8]) -> RequestError {
    match parse_request(request, &little()) {
        Ok(_) => panic!("accepted"),
        Err(e) => e,
    }
}

#[test]
fn the_bytes_of_a_request() {
    assert_eq!(create_request(&group(), &little()), little_request());
}

#[test]
fn the_bytes_of_a_request_in_the_other_byte_order() {
    let request = create_request(&group(), &big());
    assert_eq!(request[0..8], [0x1f, 0x0c, 0, 1, 0, 64, 0, 4]);
    assert_eq!(request[8..20], [0, 0, 0, 3, 0, 0, 0, 1, 0, 0, 0, 1]);
    assert_eq!(request[20..28], [0, 0, 0, 1, 0, 0, 0, 16]);
    assert_eq!(request[52..], [1, 2, 3, 0xaa, 0xbb, 0xcc]);
}

#[test]
fn a_request_is_read_from_the_other_side() {
    let read = parse_request(&little_request(), &little()).unwrap();
    assert_eq!(read.consumers.len(), 1);
    assert_eq!(read.consumers[0].additional_messages, 1);
    assert_eq!(read.consumers[0].message_size.get(), 16);
    assert!(read.consumers[0].eventfd);
    assert_eq!(read.consumers[0].info, vec![0xaa]);
    assert_eq!(read.producers.len(), 1);
    assert_eq!(read.producers[0].additional_messages, 0);
    assert_eq!(read.producers[0].message_size.get(), 4);
    assert!(!read.producers[0].eventfd);
    assert_eq!(read.producers[0].info, vec![0xbb, 0xcc]);
    assert_eq!(read.info, vec![1, 2, 3]);
}

#[test]
fn bytes_behind_a_request_are_not_looked_at() {
    let mut request = little_request();
    request.push(99);
    let read = parse_request(&request, &little()).unwrap();
    assert_eq!(read.producers[0].info, vec![0xbb, 0xcc]);
}

#[test]
fn a_group_without_channels_can_be_offered() {
    let empty = GroupAttr { producers: vec![], consumers: vec![], info: vec![] };
    let request = create_request(&empty, &big());
    assert_eq!(request.len(), 20);
    let read = parse_request(&request, &big()).unwrap();
    assert!(read.producers.is_empty() && read.consumers.is_empty() && read.info.is_empty());
}

#[test]
fn numbers_that_do_not_fit_are_cut_off() {
    let large = GroupAttr {
        producers: vec![channel(0x1_0000_0000, 4, false, &[])],
        consumers: vec![],
        info: vec![],
    };
    let read = parse_request(&create_request(&large, &little()), &little()).unwrap();
    assert_eq!(read.consumers[0].additional_messages, 0);
}

#[test]
fn a_request_that_was_cut_off_is_refused() {
    let request = little_request();
    for len in 0..request.len() {
        assert_eq!(refused(&request[0..len]), RequestError::OutOfBounds);
    }
}

#[test]
fn a_request_with_another_magic_is_refused() {
    let mut request = little_request();
    request[0] = 0;
    assert_eq!(refused(&request), RequestError::HeaderError(HeaderError::MagicMismatch));
}

#[test]
fn a_request_of_another_version_is_refused() {
    let mut request = little_request();
    request[2] = 2;
    assert_eq!(refused(&request), RequestError::HeaderError(HeaderError::VersionMismatch));
}

#[test]
fn a_request_for_other_cachelines_is_refused() {
    let other = Host::new(128, ByteOrder::Little).unwrap();
    let request = create_request(&group(), &other);
    assert_eq!(refused(&request), RequestError::HeaderError(HeaderError::CachelineSizeMismatch));
}

#[test]
fn a_request_for_other_indices_is_refused() {
    let mut request = little_request();
    request[6] = 8;
    assert_eq!(refused(&request), RequestError::HeaderError(HeaderError::AtomicSizeMismatch));
}

#[test]
fn a_request_of_the_other_byte_order_is_refused() {
    let request = create_request(&group(), &big());
    assert_eq!(refused(&request), RequestError::HeaderError(HeaderError::MagicMismatch));
}

#[test]
fn a_header_that_is_too_short_is_refused() {
    let header = rtipc::header::verify_header(&little(), &[0x0c, 0x1f, 1]);
    assert_eq!(header, Err(HeaderError::SizeExceedsRequest));
}

#[test]
fn a_message_of_no_bytes_is_refused() {
    let mut request = little_request();
    request[24] = 0;
    assert_eq!(refused(&request), RequestError::OutOfBounds);
}

#[test]
fn more_channels_than_there_are_bytes_are_refused() {
    let mut request = little_request();
    request[15] = 0xff;
    assert_eq!(refused(&request), RequestError::OutOfBounds);
}

#[test]
fn an_info_longer_than_the_request_is_refused() {
    let mut request = little_request();
    request[48] = 3;
    assert_eq!(refused(&request), RequestError::OutOfBounds);
}

#[test]
fn ordinary_groups_fit_into_a_request() {
    assert!(request_fits(&group()));
}

#[test]
fn the_bytes_of_a_response() {
    assert_eq!(create_response(true), vec![0, 0, 0, 0]);
    assert_eq!(create_response(false), vec![0xff, 0xff, 0xff, 0xff]);
}

#[test]
fn a_response_says_whether_the_request_was_accepted() {
    assert!(parse_response(&create_response(true)).is_ok());
    assert!(matches!(
        parse_response(&create_response(false)),
        Err(TransferError::ResponseError)
    ));
}

#[test]
fn anything_else_is_no_acceptance() {
    for response in [vec![], vec![0, 0, 0], vec![0, 0, 0, 0, 0], vec![0, 0, 1, 0]] {
        assert!(matches!(parse_response(&response), Err(TransferError::ResponseError)));
    }
}
