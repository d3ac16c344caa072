//! Which part of acs a process is.

use acs::{version_text, Role, VERSION};

fn role(a: &str) -> Role {
    Role::from_first_arg(Some(a))
}

#[test]
fn hidden_roles_are_underscore_prefixed() {
    assert_eq!(role("_proxy"), Role::Proxy);
    assert_eq!(role("_master"), Role::Master);
    assert_eq!(role("_install"), Role::Install);
    assert_eq!(role("_update-check"), Role::UpdateCheck);
    assert_eq!(role("_version"), Role::Version);
    assert_eq!(role("--version"), Role::Version);
}

#[test]
fn anything_else_is_the_client() {
    assert_eq!(role("devbox"), Role::Client);
    assert_eq!(role("proxy"), Role::Client);
    assert_eq!(role("me@config"), Role::Client);
    assert_eq!(role("-v"), Role::Client);
}

#[test]
fn commands_are_reserved_as_the_first_argument() {
    assert_eq!(role("config"), Role::Config);
    assert_eq!(role("upgrade"), Role::Upgrade);
    assert_eq!(role("list"), Role::List);
    assert_eq!(Role::from_first_arg(None), Role::Client);
    // A host of that name: as user@list, or behind an option.
    assert_eq!(role("me@list"), Role::Client);
    assert_eq!(role("-v"), Role::Client);
}

#[test]
fn the_version_names_what_can_be_installed() {
    let own = "x86_64-unknown-linux-musl".to_string();
    let arm = "aarch64-unknown-linux-musl".to_string();
    assert_eq!(
        version_text(&own, Some(&[own.clone(), arm.clone()])),
        format!("acs {VERSION} (protocol 1, {own})\ninstalls remotes: {own}, {arm}\n")
    );
    assert_eq!(
        version_text(&own, None),
        format!("acs {VERSION} (protocol 1, {own})\ninstalls remotes: {own} (slim build)\n")
    );
}
