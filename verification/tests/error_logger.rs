use peernet::InspectErr;

#[test]
fn log_err() {
    let error: Result<i32, String> = Err("Invalid number".to_string());

    if let Ok(nb) = error.inspect_error(|err| println!("Got an error: {}", err)) {
        println!("Number: {}", nb);
    }
}

#[test]
fn inspect_error_hands_back_ok_and_err() {
    let ok: Result<i32, String> = Ok(7);
    let mut err_seen = false;
    let r = ok.inspect_error(|_e| err_seen = true);
    assert_eq!(r, Ok(7));
    assert!(!err_seen);

    let bad: Result<i32, String> = Err("boom".to_string());
    let mut seen = String::new();
    let r = bad.inspect_error(|e| seen = e.clone());
    assert_eq!(r, Err("boom".to_string()));
    assert_eq!(seen, "boom");
}
