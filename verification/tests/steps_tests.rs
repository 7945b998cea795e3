use sshmgr_tui::sftp::error::{ConnectionRole, CredentialMethod, SftpError};
use sshmgr_tui::sftp::steps::{
    auth_plan, check_connection, destination_blocks, expand_home, replace_failed,
    should_report, signature_candidates, upload_plan, username_for, AuthAttempt, Commit, RsaHash,
};
use sshmgr_tui::sftp::types::{
    AgentEndpoint, PrivateKeySource, SftpAuthentication, SftpConnectionOptions,
};

fn options(host: &str, port: u32) -> SftpConnectionOptions {
    SftpConnectionOptions {
        host: host.to_owned(),
        port,
        username: None,
        authentication: SftpAuthentication { password: None, private_keys: vec![], agent: None },
        ready_timeout: None,
        keepalive_interval: None,
        keepalive_count_max: None,
        jump: None,
    }
}

#[test]
fn endpoints_need_a_host_and_a_port_in_range() {
    assert_eq!(check_connection(&options("example.com", 22)), Ok(()));
    assert_eq!(
        check_connection(&options("  ", 22)),
        Err(SftpError::InvalidConnection("target host host is required".to_owned()))
    );
    assert_eq!(
        check_connection(&options("example.com", 70000)),
        Err(SftpError::InvalidConnection("target host port 70000 is outside 1..=65535".to_owned()))
    );
    let mut with_jump = options("example.com", 22);
    with_jump.jump = Some(Box::new(options("bastion", 0)));
    assert_eq!(
        check_connection(&with_jump),
        Err(SftpError::InvalidConnection("jump host port 0 is outside 1..=65535".to_owned()))
    );
    let mut nested = options("bastion", 22);
    nested.jump = Some(Box::new(options("inner", 22)));
    with_jump.jump = Some(Box::new(nested));
    assert_eq!(
        check_connection(&with_jump),
        Err(SftpError::InvalidConnection("only one SFTP jump host is supported".to_owned()))
    );
}

#[test]
fn credentials_are_tried_password_keys_then_agent() {
    let none = SftpAuthentication { password: None, private_keys: vec![], agent: None };
    assert_eq!(
        auth_plan(&none, ConnectionRole::Jump),
        Err(SftpError::CredentialRequired {
            role: ConnectionRole::Jump,
            method: CredentialMethod::Authentication
        })
    );
    let key = PrivateKeySource { path: Some("~/.ssh/id".to_owned()), data: None, passphrase: None };
    let all = SftpAuthentication {
        password: Some("pw".to_owned()),
        private_keys: vec![key.clone(), key],
        agent: Some(AgentEndpoint::Default),
    };
    assert_eq!(
        auth_plan(&all, ConnectionRole::Target),
        Ok(vec![
            AuthAttempt::Password,
            AuthAttempt::PrivateKey(0),
            AuthAttempt::PrivateKey(1),
            AuthAttempt::Agent
        ])
    );
    let mut with_user = options("h", 22);
    assert_eq!(username_for(&with_user, "me".to_owned()), "me");
    with_user.username = Some(String::new());
    assert_eq!(username_for(&with_user, "me".to_owned()), "me");
    with_user.username = Some("ops".to_owned());
    assert_eq!(username_for(&with_user, "me".to_owned()), "ops");
}

#[test]
fn rsa_keys_fall_back_through_hashes() {
    assert_eq!(signature_candidates(false, None), vec![None]);
    assert_eq!(
        signature_candidates(true, Some(Some(RsaHash::Sha256))),
        vec![Some(RsaHash::Sha256)]
    );
    assert_eq!(
        signature_candidates(true, None),
        vec![Some(RsaHash::Sha512), Some(RsaHash::Sha256), None]
    );
}

#[test]
fn home_is_expanded_only_at_the_start() {
    assert_eq!(expand_home("~", Some("/home/ops".to_owned())), "/home/ops");
    assert_eq!(expand_home("~/.ssh/id", Some("/home/ops".to_owned())), "/home/ops/.ssh/id");
    assert_eq!(expand_home("~/.ssh/id", None), "~/.ssh/id");
    assert_eq!(expand_home("/etc/key", Some("/home/ops".to_owned())), "/etc/key");
    assert_eq!(expand_home("~ops/key", Some("/home/ops".to_owned())), "~ops/key");
}

#[test]
fn uploads_are_staged_next_to_the_destination() {
    let plan = upload_plan("/srv/data/report.txt", true, true, false, "7");
    assert_eq!(plan.parent, Some("/srv/data".to_owned()));
    assert_eq!(plan.target, "/srv/data/.report.txt.sshmgr-7.part");
    assert_eq!(plan.commit, Commit::Rename);
    let plan = upload_plan("/report.txt", true, true, true, "7");
    assert_eq!(plan.parent, None);
    assert_eq!(plan.commit, Commit::Replace);
    let plan = upload_plan("report.txt", false, false, true, "7");
    assert_eq!(plan.target, "report.txt");
    assert_eq!(plan.commit, Commit::InPlace);
}

#[test]
fn conflicts_progress_and_failed_replacements() {
    assert!(!destination_blocks(false, false, false));
    assert!(destination_blocks(true, false, true));
    assert!(destination_blocks(true, true, false));
    assert!(!destination_blocks(true, true, true));
    assert!(should_report(false, 10, Some(10)));
    assert!(!should_report(false, 9, Some(10)));
    assert!(!should_report(false, 9, None));
    assert!(should_report(true, 0, None));
    let error = replace_failed("/a".to_owned(), "/b".to_owned(), "busy", "gone");
    assert_eq!(
        error.message(),
        "replace failed for /a; the original remains at /b: replacement: busy; restore: gone"
    );
}
