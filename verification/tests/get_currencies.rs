use gdax_rs::products::GetCurrencies;
use gdax_rs::rest_client::{EndPointRequest, EndPointRequestHandler, HttpMethod};
use gdax_rs::url::Route;

#[test]
fn test_create_request() {
    let result = GetCurrencies::new().create_request();

    let expected = EndPointRequest {
        http_method: HttpMethod::Get,
        route: Route::new().add_segment(&"currencies"),
        body: String::new(),
    };

    assert_eq!(result, expected);
}

#[test]
fn create_request_twice_gives_equal_requests() {
    let handler = GetCurrencies::new();
    assert_eq!(handler.create_request(), handler.create_request());
    assert_eq!(GetCurrencies::new().create_request(), GetCurrencies::default().create_request());
}

#[test]
fn currencies_request_is_a_get_of_the_currencies_path() {
    let request = GetCurrencies::new().create_request();
    assert_eq!(request.http_method, HttpMethod::Get);
    assert_eq!(request.route.to_string(), "/currencies");
    assert_eq!(request.body, "");
}

#[test]
fn requests_differ_when_any_field_differs() {
    let base = GetCurrencies::new().create_request();
    let other_method = EndPointRequest {
        http_method: HttpMethod::Post,
        route: Route::new().add_segment("currencies"),
        body: String::new(),
    };
    let other_route = EndPointRequest {
        http_method: HttpMethod::Get,
        route: Route::new().add_segment("products"),
        body: String::new(),
    };
    let other_body = EndPointRequest {
        http_method: HttpMethod::Get,
        route: Route::new().add_segment("currencies"),
        body: String::from("{}"),
    };
    assert_ne!(base, other_method);
    assert_ne!(base, other_route);
    assert_ne!(base, other_body);
}
