use actix_web::body::MessageBody;
use actix_web::HttpResponse;
use newsletter::response::Response;
use newsletter::routes::health_check;

#[test]
fn health_check_returns_200_with_an_empty_body() {
    let response = health_check();
    assert_eq!(response.status, 200);
    assert!(response.is_success());
    assert_eq!(response.body, Vec::<u8>::new());
    assert_eq!(response.content_type, None);
}

#[test]
fn health_check_answers_alike_every_time() {
    let first = health_check();
    let second = health_check();
    let third = health_check();
    assert_eq!(first, second);
    assert_eq!(second, third);
}

#[test]
fn health_check_is_the_bare_ok_response() {
    assert_eq!(health_check(), Response::ok());
    assert_eq!(
        Response::ok(),
        Response { status: 200, content_type: None, body: vec![] }
    );
}

#[test]
fn health_check_agrees_with_the_framework_ok_response() {
    let framework = HttpResponse::Ok().finish();
    let ours = health_check();
    assert_eq!(framework.status().as_u16(), ours.status);
    assert_eq!(
        framework
            .headers()
            .get("content-type")
            .map(|value| value.to_str().unwrap().to_owned()),
        ours.content_type
    );
    let body = match framework.into_body().try_into_bytes() {
        Ok(bytes) => bytes.to_vec(),
        Err(_) => panic!("the framework's response has a streaming body"),
    };
    assert_eq!(body, ours.body);
}

#[test]
fn success_is_the_2xx_range() {
    let with_status = |status: u16| Response { status, content_type: None, body: vec![] };
    assert!(!with_status(199).is_success());
    assert!(with_status(200).is_success());
    assert!(with_status(204).is_success());
    assert!(with_status(299).is_success());
    assert!(!with_status(300).is_success());
    assert!(!with_status(400).is_success());
    assert!(!with_status(0).is_success());
    assert!(!with_status(u16::MAX).is_success());
}
