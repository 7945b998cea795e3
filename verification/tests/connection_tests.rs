use sshmgr_tui::json::JsonObject;
use sshmgr_tui::sftp::profile::connection_from_profile;
use sshmgr_tui::sftp::types::{
    AgentEndpoint, CompatibilityIssueSeverity, CredentialOverrides, ProfileConnectionOverrides,
};
use sshmgr_tui::types::{Profile, SftpProfileData};

fn profile(id: &str) -> Profile {
    Profile {
        id: id.to_owned(),
        name: id.to_owned(),
        group: String::new(),
        editable: true,
        source: "store".to_owned(),
        host: format!("{id}.summary.invalid"),
        user: String::new(),
        port: 22,
        auth: String::new(),
        has_password: false,
        jump_host: String::new(),
        icon: String::new(),
        color: String::new(),
        raw: None,
        sftp: None,
    }
}

fn sftp_data() -> SftpProfileData {
    SftpProfileData::empty()
}

fn no_credentials() -> CredentialOverrides {
    CredentialOverrides {
        password: None,
        private_keys: None,
        agent: None,
    }
}

fn overrides() -> ProfileConnectionOverrides {
    ProfileConnectionOverrides {
        credentials: no_credentials(),
        jump: no_credentials(),
        environment: None,
    }
}

#[test]
fn normalized_projection_maps_target_and_jump_credentials() {
    let mut target = profile("target");
    target.sftp = Some(SftpProfileData {
        host: Some("files.internal".to_owned()),
        user: Some("deploy".to_owned()),
        port: Some(2222),
        auth: Some("password".to_owned()),
        jump_host: Some("jump".to_owned()),
        ready_timeout: Some(750),
        keepalive_interval: Some(15),
        keepalive_count_max: Some(4),
        ..sftp_data()
    });
    let mut jump = profile("jump");
    jump.sftp = Some(SftpProfileData {
        host: Some("bastion.internal".to_owned()),
        user: Some("ops".to_owned()),
        auth: Some("agent".to_owned()),
        identity_agent: Some("/tmp/test-agent.sock".to_owned()),
        ..sftp_data()
    });
    let overrides = ProfileConnectionOverrides {
        credentials: CredentialOverrides {
            password: Some("secret".to_owned()),
            ..no_credentials()
        },
        ..overrides()
    };

    let mapped = connection_from_profile(&target, &vec![target.clone(), jump], &overrides, &Vec::new());

    assert!(mapped.supported);
    assert!(mapped.issues.is_empty());
    assert_eq!(mapped.connection.host, "files.internal");
    assert_eq!(mapped.connection.username.as_deref(), Some("deploy"));
    assert_eq!(mapped.connection.port, 2222);
    assert_eq!(mapped.connection.ready_timeout, Some(750));
    assert_eq!(mapped.connection.keepalive_interval, Some(15_000));
    assert_eq!(mapped.connection.keepalive_count_max, Some(4));
    assert_eq!(
        mapped.connection.authentication.password.as_deref(),
        Some("secret")
    );
    let jump = mapped.connection.jump.expect("mapped jump host");
    assert_eq!(jump.host, "bastion.internal");
    assert_eq!(jump.username.as_deref(), Some("ops"));
    assert_eq!(
        jump.authentication.agent,
        Some(AgentEndpoint::Path("/tmp/test-agent.sock".to_owned()))
    );
}

#[test]
fn password_environment_and_compatibility_issues_are_reported() {
    let mut target = profile("target");
    target.sftp = Some(SftpProfileData {
        host: Some("target.test".to_owned()),
        auth: Some("password".to_owned()),
        private_keys: vec!["~/.ssh/id_one".to_owned(), "~/.ssh/id_two".to_owned()],
        password_env: Some("TEST_SFTP_PASSWORD".to_owned()),
        proxy_command: Some("ssh proxy nc %h %p".to_owned()),
        ..sftp_data()
    });
    let overrides = ProfileConnectionOverrides {
        environment: Some(vec![(
            "TEST_SFTP_PASSWORD".to_owned(),
            "from-env".to_owned(),
        )]),
        ..overrides()
    };

    let mapped = connection_from_profile(&target, &vec![target.clone()], &overrides, &Vec::new());

    assert_eq!(
        mapped.connection.authentication.password.as_deref(),
        Some("from-env")
    );
    assert_eq!(mapped.connection.authentication.private_keys.len(), 2);
    assert!(!mapped.supported);
    assert!(mapped.issues.iter().any(|issue| {
        issue.field == "proxyCommand" && issue.severity == CompatibilityIssueSeverity::Unsupported
    }));
    assert!(!mapped.issues.iter().any(|issue| issue.field == "password"));
}

#[test]
fn empty_password_and_agent_do_not_suppress_password_prompt() {
    let mut target = profile("target");
    target.sftp = Some(SftpProfileData {
        host: Some("target.test".to_owned()),
        auth: Some("password".to_owned()),
        password_env: Some("EMPTY_PASSWORD".to_owned()),
        identity_agent: Some("/tmp/global-agent.sock".to_owned()),
        ..sftp_data()
    });
    let overrides = ProfileConnectionOverrides {
        environment: Some(vec![("EMPTY_PASSWORD".to_owned(), String::new())]),
        ..overrides()
    };

    let mapped = connection_from_profile(&target, &vec![target.clone()], &overrides, &Vec::new());

    assert_eq!(mapped.connection.authentication.password, None);
    assert_eq!(mapped.connection.authentication.agent, None);
    assert!(mapped.issues.iter().any(|issue| {
        issue.field == "password" && issue.severity == CompatibilityIssueSeverity::NeedsInput
    }));
}

#[test]
fn parses_a_single_inline_ipv6_jump_host() {
    let mut target = profile("target");
    target.sftp = Some(SftpProfileData {
        host: Some("target.test".to_owned()),
        auth: Some("password".to_owned()),
        jump_host: Some("ops@[2001:db8::10]:2200".to_owned()),
        ..sftp_data()
    });
    let overrides = ProfileConnectionOverrides {
        credentials: CredentialOverrides {
            password: Some("target-secret".to_owned()),
            ..no_credentials()
        },
        jump: CredentialOverrides {
            password: Some("jump-secret".to_owned()),
            ..no_credentials()
        },
        ..overrides()
    };

    let mapped = connection_from_profile(&target, &vec![target.clone()], &overrides, &Vec::new());
    let jump = mapped.connection.jump.expect("inline jump host");

    assert_eq!(jump.host, "2001:db8::10");
    assert_eq!(jump.port, 2200);
    assert_eq!(jump.username.as_deref(), Some("ops"));
    assert_eq!(jump.authentication.password.as_deref(), Some("jump-secret"));
}

#[test]
fn raw_options_without_sftp_data_are_read() {
    let mut target = profile("target");
    target.raw = Some(JsonObject::new());
    let mapped = connection_from_profile(&target, &vec![], &overrides(), &Vec::new());
    assert_eq!(mapped.connection.host, "target.summary.invalid");
    assert_eq!(mapped.connection.port, 22);
    assert!(mapped.supported);
}
