use keda_http::client::AddCall;
use keda_http::client::ProdAppClient;
use keda_http::client::TestAppClient;
use keda_http::commands::rm;
use keda_http::commands::run;

#[test]
fn rm_test_run() {
    let mut cl = TestAppClient::new();
    let res = rm(&mut cl, "testapp").unwrap();

    assert_eq!(res, ());
    assert_eq!(cl.rm_counter, 1);
    assert_eq!(cl.rm_calls.len(), 1);
    assert_eq!(cl.rm_calls[0], "testapp".to_string());
    assert_eq!(cl.add_counter, 0);
    assert_eq!(cl.add_calls.len(), 0);
}

#[test]
fn run_test_run() {
    let mut cl = TestAppClient::new();
    let app_name = "testapp";
    let app_image = "testimage";
    let port = 9090;
    let res = run(&mut cl, app_name, app_image, port).unwrap();

    assert_eq!(res, ());
    assert_eq!(cl.rm_counter, 0);
    assert_eq!(cl.rm_calls.len(), 0);
    assert_eq!(cl.add_counter, 1);
    assert_eq!(cl.add_calls.len(), 1);
    assert_eq!(
        cl.add_calls[0],
        AddCall {
            app_name: app_name.to_string(),
            app_image: app_image.to_string(),
            port: port,
        }
    )
}

#[test]
fn run_then_rm_keeps_both_histories() {
    let mut cl = TestAppClient::new();
    run(&mut cl, "a", "img", 80).unwrap();
    run(&mut cl, "b", "img2", 81).unwrap();
    rm(&mut cl, "a").unwrap();

    assert_eq!(cl.add_counter, 2);
    assert_eq!(cl.add_calls.len(), 2);
    assert_eq!(cl.add_calls[1].app_name, "b".to_string());
    assert_eq!(cl.rm_counter, 1);
    assert_eq!(cl.rm_calls, vec!["a".to_string()]);
}

#[test]
fn prod_client_request_url() {
    let cl = ProdAppClient::new("http://example.invalid/app");
    let url = cl.request_url("myapp");
    assert_eq!(url, "http://example.invalid/app?name=myapp".to_string());
}

#[test]
fn client_error_message() {
    let err = keda_http::client::ClientError::RequestFailed;
    assert_eq!(err.message(), "request failed".to_string());
}
