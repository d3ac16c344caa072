//! The tables of `acs list`.

use acs::list::{render, render_all, span};
use acs::proto::{StatusInfo, WinSize};

fn info(
    name: &str,
    attached: bool,
    who: &str,
    idle: u64,
    created: u64,
    cmd: &str,
) -> StatusInfo {
    StatusInfo {
        name: name.into(),
        attached,
        identity: who.into(),
        creator: String::new(),
        created_at: created,
        idle_secs: idle,
        command: cmd.into(),
        size: WinSize::default(),
        version: "0.1.0".into(),
        pid: 1,
    }
}

#[test]
fn spans() {
    assert_eq!(span(0), "0s");
    assert_eq!(span(59), "59s");
    assert_eq!(span(60), "1m");
    assert_eq!(span(7200), "2h");
    assert_eq!(span(3 * 86_400 + 5), "3d");
}

#[test]
fn table_of_one_host() {
    let now = 1_000_000;
    let t = render(
        "devbox",
        &[
            info("main", true, "michel@mbp", 3, now - 7200, "/bin/zsh -l"),
            info("2", false, "alice@laptop", 900, now - 60, "htop"),
            info("x", false, "", 0, now, "sh"),
        ],
        now,
    );
    assert_eq!(
        t,
        "NAME  STATE     WHO             IDLE  AGE  COMMAND\n\
             main  attached  michel@mbp      3s    2h   /bin/zsh -l\n\
             2     detached  (alice@laptop)  15m   1m   htop\n\
             x     detached  -               0s    0s   sh\n"
    );
    assert_eq!(render("h", &[], now), "no sessions on h\n");
}

#[test]
fn table_of_every_host() {
    let now = 1_000_000;
    let t = render_all(
        &[
            (
                "devbox",
                vec![
                    info("main", true, "michel@mbp", 3, now - 7200, "/bin/zsh -l"),
                    info("work", false, "michel@mbp", 60, now - 60, "htop"),
                ],
            ),
            ("nas", vec![]),
            ("lab-server", vec![info("1", false, "", 0, now, "sh")]),
        ],
        now,
    );
    assert_eq!(
        t,
        "HOST        NAME  STATE     WHO           IDLE  AGE  COMMAND\n\
             devbox      main  attached  michel@mbp    3s    2h   /bin/zsh -l\n\
             devbox      work  detached  (michel@mbp)  1m    1m   htop\n\
             lab-server  1     detached  -             0s    0s   sh\n"
    );
    assert_eq!(render_all(&[("nas", vec![])], now), "");
    assert_eq!(render_all(&[], now), "");
}
