use hex_defense::{
    apply_restart_tokens, is_restart_command, is_restart_token, listen_channel, AppState,
    ChannelTD,
};

#[test]
fn two_tokens_before_one_poll() {
    let (sender, receiver) = crossbeam_channel::unbounded::<String>();
    sender.try_send(String::from("restart")).unwrap();
    sender.try_send(String::from("restart")).unwrap();
    let channel = ChannelTD { receiver };
    let mut next: Option<AppState> = None;
    assert_eq!(listen_channel(&channel, &mut next), 2);
    assert_eq!(next, Some(AppState::Starting));
    assert!(channel.receiver.is_empty());
}

#[test]
fn empty_channel_leaves_state() {
    let (_sender, receiver) = crossbeam_channel::unbounded::<String>();
    let channel = ChannelTD { receiver };
    let mut next: Option<AppState> = Some(AppState::Running);
    assert_eq!(listen_channel(&channel, &mut next), 0);
    assert_eq!(next, Some(AppState::Running));
}

#[test]
fn restart_tokens_decide_state() {
    let mut next: Option<AppState> = None;
    apply_restart_tokens(0, &mut next);
    assert_eq!(next, None);
    apply_restart_tokens(3, &mut next);
    assert_eq!(next, Some(AppState::Starting));
}

#[test]
fn restart_command_is_trimmed() {
    assert!(is_restart_command("restart"));
    assert!(is_restart_command("  restart\n"));
    assert!(is_restart_command("\trestart \r\n"));
    assert!(!is_restart_command("restart now"));
    assert!(!is_restart_command("Restart"));
    assert!(!is_restart_command(""));
}

#[test]
fn restart_token_is_exact() {
    assert!(is_restart_token("restart"));
    assert!(!is_restart_token(" restart"));
    assert!(!is_restart_token("restar"));
    assert!(!is_restart_token("restarts"));
}
