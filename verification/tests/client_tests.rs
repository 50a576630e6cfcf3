use vibesort::Vibesort;
use vibesort::VibesortError;

#[test]
fn test_vibesort_config() {
    let sorter = Vibesort::new("key", "model", "url");
    assert_eq!(sorter.api_key, "key");
    assert_eq!(sorter.model, "model");
    assert_eq!(sorter.base_url, "url");
}

#[test]
fn test_vibesort_with_mock() {
    let sorter = Vibesort::new("test-api-key", "test-model", "http://mock.test");
    let numbers: Vec<i64> = vec![3, 1, 4, 1, 5, 9, 2, 6];
    let request = sorter.prepare_i64(&numbers);
    assert_eq!(request.url, "http://mock.test/chat/completions");
    // the reply a faithful endpoint would send back
    let body = "{\"choices\":[{\"message\":{\"content\":\"[1,1,2,3,4,5,6,9]\"}}]}";
    let result = Vibesort::handle_response_i64(200, body);
    assert!(result.is_ok());
    let sorted = result.unwrap();
    assert_eq!(sorted, vec![1, 1, 2, 3, 4, 5, 6, 9]);
}

#[test]
fn test_vibesort_api_error() {
    let result = Vibesort::handle_response_i64(500, "Internal Server Error");
    assert!(result.is_err());
    match result.unwrap_err() {
        VibesortError::ApiError(_) => {}
        _ => panic!("Expected ApiError"),
    }
}

#[test]
fn test_vibesort_parse_error() {
    let body =
        "{\"choices\":[{\"message\":{\"content\":\"Here is the sorted array: 1, 2, 3\"}}]}";
    let result = Vibesort::handle_response_i64(200, body);
    assert!(result.is_err());
    match result.unwrap_err() {
        VibesortError::ParseError(msg) => {
            assert!(msg.contains("Here is the sorted array: 1, 2, 3"));
        }
        _ => panic!("Expected ParseError"),
    }
}

#[test]
fn test_vibesort_str_with_mock() {
    let body =
        "{\"choices\":[{\"message\":{\"content\":\"[\\\"apple\\\",\\\"banana\\\",\\\"cherry\\\"]\"}}]}";
    let result = Vibesort::handle_response_str(200, body);
    assert!(result.is_ok());
    let sorted = result.unwrap();
    assert_eq!(sorted, vec!["apple", "banana", "cherry"]);
}

#[test]
fn test_empty_choices_is_invalid_response() {
    let result = Vibesort::handle_response_i64(200, "{\"choices\":[]}");
    match result.unwrap_err() {
        VibesortError::InvalidResponse => {}
        _ => panic!("Expected InvalidResponse"),
    }
}

#[test]
fn test_missing_choices_is_json_error() {
    let result = Vibesort::handle_response_i64(200, "{\"id\":\"x\"}");
    match result.unwrap_err() {
        VibesortError::JsonError(_) => {}
        _ => panic!("Expected JsonError"),
    }
}

#[test]
fn test_malformed_body_is_json_error() {
    let result = Vibesort::handle_response_i64(200, "not json at all");
    match result.unwrap_err() {
        VibesortError::JsonError(_) => {}
        _ => panic!("Expected JsonError"),
    }
}

#[test]
fn test_api_error_message_carries_status_and_body() {
    let result = Vibesort::handle_response_i64(503, "busy");
    match result.unwrap_err() {
        VibesortError::ApiError(msg) => {
            assert_eq!(msg, "API returned status 503\nServer response: busy");
        }
        _ => panic!("Expected ApiError"),
    }
}

#[test]
fn test_request_body_is_exact() {
    let sorter = Vibesort::new("k", "m", "http://h");
    let request = sorter.prepare_i64(&vec![3, 1]);
    assert_eq!(request.authorization, "Bearer k");
    assert_eq!(request.content_type, "application/json");
    let mut expected = String::from("{\"model\":\"m\",\"messages\":[");
    expected += "{\"role\":\"system\",\"content\":\"You are a helpful assistant that sorts arrays. ";
    expected += "Sort the following JSON array with ascending order and return ONLY the sorted JSON array, nothing else.\"},";
    expected += "{\"role\":\"user\",\"content\":\"[3,1]\"}";
    expected += "],\"temperature\":0.0}";
    assert_eq!(request.body, expected);
}

#[test]
fn test_request_body_escapes_string_items() {
    let sorter = Vibesort::new("k", "m", "http://h");
    let items = vec![String::from("a\"b"), String::from("c\\d")];
    let request = sorter.prepare_str(&items);
    assert!(request.body.contains("[{\"role\":\"system\","));
    assert!(request
        .body
        .contains("{\"role\":\"user\",\"content\":\"[\\\"a\\\\\\\"b\\\",\\\"c\\\\\\\\d\\\"]\"}"));
}

#[test]
fn test_negative_numbers_round_trip() {
    let body = "{\"choices\":[{\"message\":{\"content\":\"[-9223372036854775808,-1,0,9223372036854775807]\"}}]}";
    let result = Vibesort::handle_response_i64(200, body);
    assert_eq!(
        result.unwrap(),
        vec![-9223372036854775808i64, -1, 0, 9223372036854775807]
    );
}

#[test]
fn test_overflowing_number_is_parse_error() {
    let body = "{\"choices\":[{\"message\":{\"content\":\"[9223372036854775808]\"}}]}";
    match Vibesort::handle_response_i64(200, body).unwrap_err() {
        VibesortError::ParseError(msg) => {
            assert!(msg.contains("[9223372036854775808]"));
        }
        _ => panic!("Expected ParseError"),
    }
}

#[test]
fn test_leading_zero_is_parse_error() {
    let body = "{\"choices\":[{\"message\":{\"content\":\"[01]\"}}]}";
    match Vibesort::handle_response_i64(200, body).unwrap_err() {
        VibesortError::ParseError(_) => {}
        _ => panic!("Expected ParseError"),
    }
}

#[test]
fn test_content_is_trimmed_before_parsing() {
    let body = "{\"choices\":[{\"message\":{\"content\":\"  [1,2,3]\\n\"}}]}";
    assert_eq!(Vibesort::handle_response_i64(200, body).unwrap(), vec![1, 2, 3]);
}

#[test]
fn test_empty_array_content() {
    let body = "{\"choices\":[{\"message\":{\"content\":\"[]\"}}]}";
    let result = Vibesort::handle_response_i64(200, body);
    assert_eq!(result.unwrap(), Vec::<i64>::new());
}

#[test]
fn test_unknown_members_are_skipped() {
    let mut body = String::from(
        "{\"id\":\"chatcmpl-1\",\"object\":\"chat.completion\",\"usage\":{\"total_tokens\":7},",
    );
    body += "\"choices\":[{\"index\":0,\"finish_reason\":\"stop\",";
    body += "\"message\":{\"role\":\"assistant\",\"content\":\"[2,4]\"}}]}";
    assert_eq!(Vibesort::handle_response_i64(200, &body).unwrap(), vec![2, 4]);
}

#[test]
fn test_only_first_choice_is_read() {
    let mut body = String::from("{\"choices\":[");
    body += "{\"message\":{\"content\":\"[1,2]\"}},";
    body += "{\"message\":{\"content\":\"[9,9]\"}}";
    body += "]}";
    assert_eq!(Vibesort::handle_response_i64(200, &body).unwrap(), vec![1, 2]);
}

#[test]
fn test_escaped_content_is_decoded() {
    // the content arrives with \uXXXX escapes for the quotes and items
    let body = "{\"choices\":[{\"message\":{\"content\":\"[\\u0022a\\u0022]\"}}]}";
    let result = Vibesort::handle_response_str(200, body);
    assert_eq!(result.unwrap(), vec!["a"]);
}

#[test]
fn test_handling_is_deterministic() {
    let body = "{\"choices\":[{\"message\":{\"content\":\"[5,6,7]\"}}]}";
    let first = Vibesort::handle_response_i64(200, body);
    let second = Vibesort::handle_response_i64(200, body);
    assert_eq!(first.unwrap(), second.unwrap());
}

#[test]
fn test_trailing_text_after_envelope_is_json_error() {
    let body = "{\"choices\":[{\"message\":{\"content\":\"[1]\"}}]} extra";
    match Vibesort::handle_response_i64(200, body).unwrap_err() {
        VibesortError::JsonError(_) => {}
        _ => panic!("Expected JsonError"),
    }
}
