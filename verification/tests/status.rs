use twinstar::Status;
use twinstar::StatusCategory;

#[test]
fn codes_of_the_named_statuses() {
    assert_eq!(Status::input().code(), 10);
    assert_eq!(Status::sensitive_input().code(), 11);
    assert_eq!(Status::success().code(), 20);
    assert_eq!(Status::redirect_temporary().code(), 30);
    assert_eq!(Status::redirect_permanent().code(), 31);
    assert_eq!(Status::temporary_failure().code(), 40);
    assert_eq!(Status::server_unavailable().code(), 41);
    assert_eq!(Status::cgi_error().code(), 42);
    assert_eq!(Status::proxy_error().code(), 43);
    assert_eq!(Status::slow_down().code(), 44);
    assert_eq!(Status::permanent_failure().code(), 50);
    assert_eq!(Status::not_found().code(), 51);
    assert_eq!(Status::gone().code(), 52);
    assert_eq!(Status::proxy_request_refused().code(), 53);
    assert_eq!(Status::bad_request().code(), 59);
    assert_eq!(Status::client_certificate_required().code(), 60);
    assert_eq!(Status::certificate_not_authorized().code(), 61);
    assert_eq!(Status::certificate_not_valid().code(), 62);
}

#[test]
fn category_follows_the_tens_digit() {
    assert_eq!(Status::input().category(), StatusCategory::Input);
    assert_eq!(Status::sensitive_input().category(), StatusCategory::Input);
    assert_eq!(Status::success().category(), StatusCategory::Success);
    assert_eq!(Status::redirect_temporary().category(), StatusCategory::Redirect);
    assert_eq!(Status::redirect_permanent().category(), StatusCategory::Redirect);
    assert_eq!(Status::temporary_failure().category(), StatusCategory::TemporaryFailure);
    assert_eq!(Status::slow_down().category(), StatusCategory::TemporaryFailure);
    assert_eq!(Status::permanent_failure().category(), StatusCategory::PermanentFailure);
    assert_eq!(Status::bad_request().category(), StatusCategory::PermanentFailure);
    assert_eq!(
        Status::client_certificate_required().category(),
        StatusCategory::ClientCertificateRequired,
    );
    assert_eq!(
        Status::certificate_not_valid().category(),
        StatusCategory::ClientCertificateRequired,
    );
}

#[test]
fn only_success_statuses_are_successes() {
    assert!(Status::success().is_success());
    assert!(!Status::input().is_success());
    assert!(!Status::redirect_temporary().is_success());
    assert!(!Status::not_found().is_success());
    assert!(!Status::client_certificate_required().is_success());
}

#[test]
fn category_predicates_identify_one_category_each() {
    let category = Status::success().category();
    assert!(category.is_success());
    assert!(!category.is_input());
    assert!(!category.redirect());
    assert!(!category.is_temporary_failure());
    assert!(!category.is_permanent_failure());
    assert!(!category.is_client_certificate_required());
}
