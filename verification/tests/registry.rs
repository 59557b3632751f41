use game_scanner::error::ErrorKind;
use game_scanner::registry::{current_user_key_path, first_opened, local_machine_key_candidates};

#[test]
fn x86_64_tries_the_32_bit_view_first() {
    let keys = local_machine_key_candidates("Epic Games\\EpicGamesLauncher", "x86_64");
    assert_eq!(
        keys,
        vec![
            String::from("SOFTWARE\\WOW6432Node\\Epic Games\\EpicGamesLauncher"),
            String::from("SOFTWARE\\Epic Games\\EpicGamesLauncher"),
        ]
    );
}

#[test]
fn other_architectures_use_the_native_view() {
    assert_eq!(local_machine_key_candidates("Valve\\Steam", "aarch64"), vec![String::from("SOFTWARE\\Valve\\Steam")]);
    assert_eq!(current_user_key_path("Valve\\Steam"), "SOFTWARE\\Valve\\Steam");
}

#[test]
fn first_opened_key_wins_and_the_last_failure_is_reported() {
    let r = first_opened(vec![Err(String::from("a")), Ok(7), Ok(8)]);
    assert_eq!(r.ok(), Some(7));
    let e = first_opened::<u32>(vec![Err(String::from("first")), Err(String::from("second"))]).err().unwrap();
    assert_eq!(e.kind, ErrorKind::WinReg);
    assert_eq!(e.message, "second");
}
