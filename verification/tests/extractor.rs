use actix_web::http::header::CONTENT_TYPE;
use actix_web::test::TestRequest;
use actix_web::{web, FromRequest};
use newsletter::form::{DecodeError, Field};
use newsletter::routes::{subscribe, FormData};

fn extract_pairs(body: &'static str) -> Vec<(String, String)> {
    let (request, mut payload) = TestRequest::post()
        .uri("/subscriptions")
        .insert_header((CONTENT_TYPE, "application/x-www-form-urlencoded"))
        .set_payload(body)
        .to_http_parts();
    let extraction = web::Form::<Vec<(String, String)>>::from_request(&request, &mut payload);
    match actix_web::rt::System::new().block_on(extraction) {
        Ok(form) => form.into_inner(),
        Err(error) => panic!("the extractor refused the request: {}", error),
    }
}

#[test]
fn an_extracted_form_reaches_the_handler() {
    let listed = extract_pairs("email=ursula_le_guin%40gmail.com&name=le%20guin");
    let form = FormData::from_pairs(&listed).unwrap();
    assert_eq!(form.email, "ursula_le_guin@gmail.com");
    assert_eq!(form.name, "le guin");
    let response = subscribe(form);
    assert_eq!(response.status, 200);
    assert!(response.body.is_empty());
}

#[test]
fn an_extracted_form_without_email_does_not_reach_the_handler() {
    let listed = extract_pairs("name=le%20guin");
    assert_eq!(
        FormData::from_pairs(&listed),
        Err(DecodeError::MissingField(Field::Email))
    );
}

#[test]
fn an_extracted_form_decodes_as_its_body_does() {
    let bodies = [
        "email=ursula_le_guin%40gmail.com&name=le%20guin",
        "name=le+guin&email=",
        "name=a&name=b",
        "other=1",
    ];
    for body in bodies {
        assert_eq!(
            FormData::from_pairs(&extract_pairs(body)),
            FormData::decode(body.as_bytes())
        );
    }
}
