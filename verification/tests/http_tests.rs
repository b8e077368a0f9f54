use rust_course::http::{
    extract_content_type, extract_status_code, handle_response, handle_response_alternative,
    is_success, HttpResponse, HttpStatus,
};

#[test]
fn test_ok_with_body() {
    let response = HttpResponse::new(HttpStatus::Okay)
        .with_body("Hello World".to_string());

    let result = handle_response(response);
    assert_eq!(result, "Success: Hello World");
}

#[test]
fn test_ok_without_body() {
    let response = HttpResponse::new(HttpStatus::Okay);

    let result = handle_response(response);
    assert_eq!(result, "Success: No content");
}

#[test]
fn test_not_found() {
    let response = HttpResponse::new(HttpStatus::NotFound)
        .with_body("Page not found".to_string());

    let result = handle_response(response);
    assert_eq!(result, "Error: Resource not found");
}

#[test]
fn test_server_error() {
    let response = HttpResponse::new(HttpStatus::ServerError);

    let result = handle_response(response);
    assert_eq!(result, "Error: Internal server error");
}

#[test]
fn test_custom_info_status() {
    let response = HttpResponse::new(HttpStatus::Custom(201));

    let result = handle_response(response);
    assert_eq!(result, "Info: Status 201");
}

#[test]
fn test_custom_error_status() {
    let response = HttpResponse::new(HttpStatus::Custom(403));

    let result = handle_response(response);
    assert_eq!(result, "Error: Status 403");
}

#[test]
fn test_boundary_custom_status() {
    // Test exactly 400
    let response_400 = HttpResponse::new(HttpStatus::Custom(400));
    let result_400 = handle_response(response_400);
    assert_eq!(result_400, "Error: Status 400");

    // Test 399 (just below 400)
    let response_399 = HttpResponse::new(HttpStatus::Custom(399));
    let result_399 = handle_response(response_399);
    assert_eq!(result_399, "Info: Status 399");
}

#[test]
fn test_alternative_implementation() {
    let response = HttpResponse::new(HttpStatus::Okay)
        .with_body("Test content".to_string());

    let result1 = handle_response_alternative(response);

    let response2 = HttpResponse::new(HttpStatus::Okay)
        .with_body("Test content".to_string());
    let result2 = handle_response(response2);

    assert_eq!(result1, result2);
}

#[test]
fn test_extract_status_code() {
    assert_eq!(extract_status_code(&HttpResponse::new(HttpStatus::Okay)), 200);
    assert_eq!(extract_status_code(&HttpResponse::new(HttpStatus::NotFound)), 404);
    assert_eq!(extract_status_code(&HttpResponse::new(HttpStatus::ServerError)), 500);
    assert_eq!(extract_status_code(&HttpResponse::new(HttpStatus::Custom(418))), 418);
}

#[test]
fn test_is_success() {
    assert!(is_success(&HttpResponse::new(HttpStatus::Okay)));
    assert!(is_success(&HttpResponse::new(HttpStatus::Custom(201))));
    assert!(is_success(&HttpResponse::new(HttpStatus::Custom(299))));

    assert!(!is_success(&HttpResponse::new(HttpStatus::Custom(300))));
    assert!(!is_success(&HttpResponse::new(HttpStatus::Custom(199))));
    assert!(!is_success(&HttpResponse::new(HttpStatus::NotFound)));
    assert!(!is_success(&HttpResponse::new(HttpStatus::ServerError)));
}

#[test]
fn test_extract_content_type() {
    let response = HttpResponse::new(HttpStatus::Okay)
        .with_header("Content-Type".to_string(), "application/json".to_string())
        .with_header("Cache-Control".to_string(), "no-cache".to_string());

    let content_type = extract_content_type(&response);
    assert_eq!(content_type, Some("application/json".to_string()));
}

#[test]
fn test_extract_content_type_case_insensitive() {
    let response = HttpResponse::new(HttpStatus::Okay)
        .with_header("content-type".to_string(), "text/html".to_string());

    let content_type = extract_content_type(&response);
    assert_eq!(content_type, Some("text/html".to_string()));
}

#[test]
fn test_extract_content_type_missing() {
    let response = HttpResponse::new(HttpStatus::Okay)
        .with_header("Cache-Control".to_string(), "no-cache".to_string());

    let content_type = extract_content_type(&response);
    assert_eq!(content_type, None);
}

#[test]
fn test_response_builder() {
    let response = HttpResponse::new(HttpStatus::Okay)
        .with_body("Test body".to_string())
        .with_header("Content-Type".to_string(), "text/plain".to_string())
        .with_header("X-Custom".to_string(), "test-value".to_string());

    assert_eq!(response.status, HttpStatus::Okay);
    assert_eq!(response.body, Some("Test body".to_string()));
    assert_eq!(response.headers.len(), 2);
    assert!(response.headers.contains(&("Content-Type".to_string(), "text/plain".to_string())));
    assert!(response.headers.contains(&("X-Custom".to_string(), "test-value".to_string())));
}

#[test]
fn test_complex_pattern_matching_scenarios() {
    // Test with headers but different status combinations
    let responses = vec![
        (HttpResponse::new(HttpStatus::Okay).with_body("Success".to_string()), "Success: Success"),
        (HttpResponse::new(HttpStatus::NotFound).with_body("Not found page".to_string()), "Error: Resource not found"),
        (HttpResponse::new(HttpStatus::Custom(201)).with_body("Created".to_string()), "Info: Status 201"),
        (HttpResponse::new(HttpStatus::Custom(401)).with_body("Unauthorized".to_string()), "Error: Status 401"),
    ];

    for (response, expected) in responses {
        assert_eq!(handle_response(response), expected);
    }
}

#[test]
fn test_guard_coverage() {
    // Test edge cases around the 400 boundary for custom status codes
    let test_cases = vec![
        (HttpStatus::Custom(100), "Info: Status 100"),
        (HttpStatus::Custom(199), "Info: Status 199"),
        (HttpStatus::Custom(300), "Info: Status 300"),
        (HttpStatus::Custom(399), "Info: Status 399"),
        (HttpStatus::Custom(400), "Error: Status 400"),
        (HttpStatus::Custom(401), "Error: Status 401"),
        (HttpStatus::Custom(500), "Error: Status 500"),
        (HttpStatus::Custom(999), "Error: Status 999"),
    ];

    for (status, expected) in test_cases {
        let response = HttpResponse::new(status);
        assert_eq!(handle_response(response), expected);
    }
}

#[test]
fn custom_status_codes_are_written_in_decimal() {
    assert_eq!(handle_response(HttpResponse::new(HttpStatus::Custom(0))), "Info: Status 0");
    assert_eq!(handle_response(HttpResponse::new(HttpStatus::Custom(7))), "Info: Status 7");
    assert_eq!(
        handle_response(HttpResponse::new(HttpStatus::Custom(65535))),
        "Error: Status 65535"
    );
    assert_eq!(
        handle_response_alternative(HttpResponse::new(HttpStatus::Custom(1000))),
        "Error: Status 1000"
    );
}

#[test]
fn both_handlers_agree_on_every_kind_of_status() {
    let make = |s: u16| match s {
        0 => HttpResponse::new(HttpStatus::Okay),
        1 => HttpResponse::new(HttpStatus::Okay).with_body("x".to_string()),
        2 => HttpResponse::new(HttpStatus::NotFound),
        3 => HttpResponse::new(HttpStatus::ServerError),
        c => HttpResponse::new(HttpStatus::Custom(c)),
    };
    for code in [0u16, 1, 2, 3, 100, 399, 400, 401, 599] {
        assert_eq!(handle_response(make(code)), handle_response_alternative(make(code)));
    }
}

#[test]
fn success_is_exactly_the_2xx_range() {
    for code in [100u16, 199, 200, 250, 299, 300, 404, 500] {
        let r = HttpResponse::new(HttpStatus::Custom(code));
        let c = extract_status_code(&r);
        assert_eq!(is_success(&r), (200..300).contains(&c));
    }
    let ok = HttpResponse::new(HttpStatus::Okay);
    assert!(is_success(&ok) && extract_status_code(&ok) == 200);
}

#[test]
fn content_type_lookup_ignores_case_and_takes_the_first() {
    let response = HttpResponse::new(HttpStatus::Okay)
        .with_header("X-Other".to_string(), "1".to_string())
        .with_header("CONTENT-TYPE".to_string(), "text/plain".to_string())
        .with_header("content-type".to_string(), "text/html".to_string());
    assert_eq!(extract_content_type(&response), Some("text/plain".to_string()));
}
