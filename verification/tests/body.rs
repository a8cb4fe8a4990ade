use gtui::body::{
    copy_bytes, decode_part_data, extract_text_body, pick_decoded, Header, MessagePart,
};
use gtui::mail::{
    assemble_message, find_header, label_from_remote, listed_ids, raw_message, RemoteMessage,
};

fn leaf(mime: &str, data: &str) -> MessagePart {
    MessagePart {
        mime_type: Some(mime.to_string()),
        headers: Vec::new(),
        body_data: Some(data.as_bytes().to_vec()),
        parts: Vec::new(),
    }
}

fn branch(mime: &str, parts: Vec<MessagePart>) -> MessagePart {
    MessagePart { mime_type: Some(mime.to_string()), headers: Vec::new(), body_data: None, parts }
}

fn header(name: &str, value: &str) -> Header {
    Header { name: Some(name.to_string()), value: Some(value.to_string()) }
}

#[test]
fn unpadded_base64_is_decoded() {
    assert_eq!(decode_part_data(&b"aGVsbG8".to_vec()), Some("hello".to_string()));
    assert_eq!(decode_part_data(&b"aGVsbG8gd29ybGQ".to_vec()), Some("hello world".to_string()));
}

#[test]
fn padded_base64_is_decoded() {
    assert_eq!(decode_part_data(&b"aGk=".to_vec()), Some("hi".to_string()));
    assert_eq!(decode_part_data(&b"aA==".to_vec()), Some("h".to_string()));
}

#[test]
fn standard_alphabet_is_decoded_without_padding() {
    assert_eq!(decode_part_data(&b"fn5+".to_vec()), Some("~~~".to_string()));
}

#[test]
fn standard_alphabet_is_decoded_with_padding() {
    assert_eq!(decode_part_data(&b"fn5+fg==".to_vec()), Some("~~~~".to_string()));
}

#[test]
fn white_space_around_the_data_is_ignored() {
    assert_eq!(decode_part_data(&b"  aGVsbG8\r\n".to_vec()), Some("hello".to_string()));
}

#[test]
fn data_with_url_safe_characters_are_taken_as_they_are() {
    // `-` and `_` are turned into `+` and `/` before the URL-safe alphabet is
    // tried, which then refuses them; the standard alphabet refuses the
    // data as they came.
    assert_eq!(decode_part_data(&b"fn5-".to_vec()), Some("fn5-".to_string()));
    assert_eq!(decode_part_data(&b"fn5_".to_vec()), Some("fn5_".to_string()));
}

#[test]
fn text_that_is_no_base64_is_taken_as_it_is() {
    assert_eq!(decode_part_data(&b"hello world!".to_vec()), Some("hello world!".to_string()));
    assert_eq!(decode_part_data(&b" padded text ".to_vec()), Some(" padded text ".to_string()));
}

#[test]
fn decoded_bytes_that_are_no_text_give_nothing() {
    // "/w==" is the byte 0xff, which is not UTF-8.
    assert_eq!(decode_part_data(&b"/w==".to_vec()), None);
}

#[test]
fn raw_bytes_that_are_no_text_give_nothing() {
    assert_eq!(decode_part_data(&vec![0xff, 0xfe, 0x21]), None);
}

#[test]
fn empty_data_give_the_empty_text() {
    assert_eq!(decode_part_data(&Vec::new()), Some(String::new()));
}

#[test]
fn first_successful_decoding_is_picked() {
    let raw = vec![9u8];
    assert_eq!(pick_decoded(Some(vec![1]), Some(vec![2]), Some(vec![3]), Some(vec![4]), &raw), vec![1]);
    assert_eq!(pick_decoded(None, Some(vec![2]), Some(vec![3]), Some(vec![4]), &raw), vec![2]);
    assert_eq!(pick_decoded(None, None, Some(vec![3]), Some(vec![4]), &raw), vec![3]);
    assert_eq!(pick_decoded(None, None, None, Some(vec![4]), &raw), vec![4]);
    assert_eq!(pick_decoded(None, None, None, None, &raw), vec![9]);
    assert_eq!(pick_decoded(Some(Vec::new()), None, None, None, &raw), Vec::<u8>::new());
    assert_eq!(copy_bytes(&vec![1, 2, 3]), vec![1, 2, 3]);
}

#[test]
fn text_part_of_the_wanted_type_is_found() {
    let part = leaf("text/plain", "aGVsbG8");
    assert_eq!(extract_text_body(&part, "text/plain"), Some("hello".to_string()));
    assert_eq!(extract_text_body(&part, "text/html"), None);
}

#[test]
fn texts_of_nested_parts_are_joined_in_order() {
    let part = branch(
        "multipart/mixed",
        vec![
            branch(
                "multipart/alternative",
                vec![leaf("text/plain", "aGVsbG8"), leaf("text/html", "PGI-")],
            ),
            leaf("image/png", "AAAA"),
            leaf("text/plain", "IHdvcmxk"),
        ],
    );
    assert_eq!(extract_text_body(&part, "text/plain"), Some("hello world".to_string()));
}

#[test]
fn part_without_text_gives_nothing() {
    assert_eq!(extract_text_body(&branch("multipart/mixed", Vec::new()), "text/plain"), None);
    let odd = MessagePart { mime_type: None, headers: Vec::new(), body_data: None, parts: Vec::new() };
    assert_eq!(extract_text_body(&odd, "text/plain"), None);
    let empty = branch("multipart/mixed", vec![leaf("text/plain", "")]);
    assert_eq!(extract_text_body(&empty, "text/plain"), None);
}

#[test]
fn matching_part_with_data_hides_the_parts_below() {
    let part = MessagePart {
        mime_type: Some("text/plain".to_string()),
        headers: Vec::new(),
        body_data: Some(b"/w==".to_vec()),
        parts: vec![leaf("text/plain", "aGVsbG8")],
    };
    assert_eq!(extract_text_body(&part, "text/plain"), None);
}

#[test]
fn matching_part_without_data_falls_through_to_the_parts_below() {
    let part = MessagePart {
        mime_type: Some("text/plain".to_string()),
        headers: Vec::new(),
        body_data: None,
        parts: vec![leaf("text/plain", "aGVsbG8")],
    };
    assert_eq!(extract_text_body(&part, "text/plain"), Some("hello".to_string()));
}

#[test]
fn last_header_of_a_name_wins() {
    let headers = vec![
        header("From", "first@example.com"),
        header("Subject", "hi"),
        header("From", "second@example.com"),
        Header { name: None, value: Some("nameless".to_string()) },
    ];
    assert_eq!(find_header(&headers, "From"), Some("second@example.com".to_string()));
    assert_eq!(find_header(&headers, "Subject"), Some("hi".to_string()));
    assert_eq!(find_header(&headers, "To"), None);
    assert_eq!(find_header(&headers, "from"), None);
}

#[test]
fn last_header_without_a_value_gives_nothing() {
    let headers =
        vec![header("To", "x@example.com"), Header { name: Some("To".to_string()), value: None }];
    assert_eq!(find_header(&headers, "To"), None);
}

#[test]
fn remote_mail_becomes_a_row() {
    let remote = RemoteMessage {
        id: Some("m1".to_string()),
        thread_id: Some("t1".to_string()),
        snippet: Some("hello...".to_string()),
        internal_date: Some(1_700_000_000_000),
        label_ids: Some(vec!["INBOX".to_string(), "UNREAD".to_string()]),
        payload: Some(MessagePart {
            mime_type: Some("multipart/alternative".to_string()),
            headers: vec![
                header("From", "alice@example.com"),
                header("To", "me@example.com"),
                header("Subject", "Greetings"),
            ],
            body_data: None,
            parts: vec![leaf("text/plain", "aGVsbG8"), leaf("text/html", "PGI-")],
        }),
    };
    let row = assemble_message(&remote);
    assert_eq!(row.id, "m1");
    assert_eq!(row.thread_id, "t1");
    assert_eq!(row.snippet, Some("hello...".to_string()));
    assert_eq!(row.from_address, Some("alice@example.com".to_string()));
    assert_eq!(row.to_address, Some("me@example.com".to_string()));
    assert_eq!(row.subject, Some("Greetings".to_string()));
    assert_eq!(row.internal_date, 1_700_000_000_000);
    assert_eq!(row.body_plain, Some("hello".to_string()));
    assert_eq!(row.body_html, None);
    assert!(!row.is_read);
}

#[test]
fn remote_mail_with_nothing_in_it_becomes_an_empty_row() {
    let remote = RemoteMessage {
        id: None,
        thread_id: None,
        snippet: None,
        internal_date: None,
        label_ids: None,
        payload: None,
    };
    let row = assemble_message(&remote);
    assert_eq!(row.id, "");
    assert_eq!(row.thread_id, "");
    assert_eq!(row.snippet, None);
    assert_eq!(row.from_address, None);
    assert_eq!(row.internal_date, 0);
    assert_eq!(row.body_plain, None);
    assert!(row.is_read);
}

#[test]
fn mail_without_the_unread_label_is_read() {
    let remote = RemoteMessage {
        id: Some("m".to_string()),
        thread_id: Some("t".to_string()),
        snippet: None,
        internal_date: Some(-7),
        label_ids: Some(vec!["INBOX".to_string(), "unread".to_string()]),
        payload: None,
    };
    let row = assemble_message(&remote);
    assert!(row.is_read);
    assert_eq!(row.internal_date, -7);
}

#[test]
fn mail_to_send_is_written_with_its_headers() {
    assert_eq!(
        raw_message("bob@example.com", "Hi", "line one\nline two"),
        "From: me\r\nTo: bob@example.com\r\nSubject: Hi\r\nContent-Type: text/plain; charset=\"UTF-8\"\r\n\r\nline one\nline two"
    );
    assert_eq!(
        raw_message("", "", ""),
        "From: me\r\nTo: \r\nSubject: \r\nContent-Type: text/plain; charset=\"UTF-8\"\r\n\r\n"
    );
}

#[test]
fn listed_label_becomes_a_row() {
    let full = label_from_remote(
        Some("Label_7".to_string()),
        Some("Projects".to_string()),
        Some("user".to_string()),
        Some("#000000".to_string()),
        Some("#ffffff".to_string()),
    );
    assert_eq!(full.id, "Label_7");
    assert_eq!(full.name, "Projects");
    assert_eq!(full.label_type, "user");
    assert_eq!(full.color_foreground, Some("#000000".to_string()));
    assert_eq!(full.color_background, Some("#ffffff".to_string()));
    assert_eq!(full.display_name, "");
    let bare = label_from_remote(None, None, None, None, None);
    assert_eq!(bare.id, "");
    assert_eq!(bare.name, "");
    assert_eq!(bare.label_type, "");
    assert_eq!(bare.color_foreground, None);
    assert_eq!(bare.color_background, None);
}

#[test]
fn listing_without_ids_is_left_out() {
    let listed = vec![Some("a".to_string()), None, Some("b".to_string()), None];
    assert_eq!(listed_ids(&listed), vec!["a".to_string(), "b".to_string()]);
    assert!(listed_ids(&vec![None, None]).is_empty());
    assert!(listed_ids(&Vec::new()).is_empty());
}
