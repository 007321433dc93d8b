use modfetch::manifest::Item;
use modfetch::protocol::{
    classify, download_command, is_login_marker, login_command, DownloadFailedError,
    DownloadState, Verdict, CATALOG_ID,
};

fn cool_mod() -> Item {
    Item {
        identifier: 123,
        display_name: "Cool Mod".to_string(),
        source_reference: "http://x?id=123".to_string(),
    }
}

#[test]
fn the_login_command_asks_for_no_account() {
    assert_eq!(login_command(), "login anonymous");
}

#[test]
fn the_download_command_names_catalog_and_item() {
    assert_eq!(CATALOG_ID, 294100);
    assert_eq!(download_command(123), "workshop_download_item 294100 123");
    assert_eq!(download_command(0), "workshop_download_item 294100 0");
    assert_eq!(download_command(-7), "workshop_download_item 294100 -7");
    assert_eq!(
        download_command(i64::MAX),
        "workshop_download_item 294100 9223372036854775807"
    );
}

#[test]
fn the_login_marker_is_the_whole_line() {
    assert!(is_login_marker("Waiting for user info...OK"));
    assert!(is_login_marker("Waiting for user info...OK\n"));
}

#[test]
fn a_line_around_the_login_marker_is_not_the_marker() {
    assert!(!is_login_marker(""));
    assert!(!is_login_marker("\n"));
    assert!(!is_login_marker("Waiting for user info..."));
    assert!(!is_login_marker("Waiting for user info...OK "));
    assert!(!is_login_marker(" Waiting for user info...OK"));
    assert!(!is_login_marker("Waiting for user info...OK\r\n"));
    assert!(!is_login_marker("Waiting for user info...OK!"));
    assert!(!is_login_marker("waiting for user info...ok"));
    assert!(!is_login_marker("Waiting for client config...OK"));
}

#[test]
fn a_report_of_success_is_told_by_its_beginning() {
    assert_eq!(classify("Success. Downloaded item 123 to /staging/123\n", 123), Verdict::Success);
    assert_eq!(classify("Success. Downloaded item 123 to", 123), Verdict::Success);
    assert_eq!(
        classify("Success. Downloaded item 123 to \"/a/b\" (4096 bytes) ", 123),
        Verdict::Success
    );
}

#[test]
fn a_report_of_failure_is_told_by_its_beginning() {
    assert_eq!(classify("ERROR! Download item 123 failed (Timeout).\n", 123), Verdict::Failure);
    assert_eq!(classify("ERROR! Download item 123 failed", 123), Verdict::Failure);
}

#[test]
fn a_report_about_another_item_says_nothing() {
    for line in [
        "Success. Downloaded item 12 to /staging/12\n",
        "Success. Downloaded item 1234 to /staging/1234\n",
        "Success. Downloaded item 124 to /staging/124\n",
        "Success. Downloaded item -123 to /staging/-123\n",
        "Success. Downloaded item 0123 to /staging/0123\n",
        "ERROR! Download item 12 failed (Failure).\n",
        "ERROR! Download item 1234 failed (Failure).\n",
        "ERROR! Download item 1230 failed (Failure).\n",
    ] {
        assert_eq!(classify(line, 123), Verdict::Other, "{:?}", line);
    }
}

#[test]
fn a_report_is_about_the_item_it_names() {
    assert_eq!(classify("Success. Downloaded item 12 to /staging/12\n", 12), Verdict::Success);
    assert_eq!(classify("Success. Downloaded item -5 to x", -5), Verdict::Success);
    assert_eq!(classify("ERROR! Download item 1234 failed (Failure).\n", 1234), Verdict::Failure);
}

#[test]
fn other_text_says_nothing() {
    for line in [
        "",
        "\n",
        "Downloading item 123 ...\n",
        "Success. Downloaded item 123\n",
        "Success. Downloaded item 123 t",
        "Success.  Downloaded item 123 to x\n",
        "success. downloaded item 123 to x\n",
        " Success. Downloaded item 123 to x\n",
        "x Success. Downloaded item 123 to x\n",
        "ERROR! Download item 123 fail\n",
        "ERROR! Download item 123  failed\n",
        "ERROR! Timeout downloading item 123\n",
        "Waiting for user info...OK\n",
        "Steam>",
    ] {
        assert_eq!(classify(line, 123), Verdict::Other, "{:?}", line);
    }
}

#[test]
fn a_request_leaves_idle_with_the_command() {
    assert_eq!(
        DownloadState::Idle.request(&cool_mod()),
        (DownloadState::Requested, Some("workshop_download_item 294100 123".to_string()))
    );
}

#[test]
fn a_request_is_made_once() {
    let failed = DownloadState::Failed(DownloadFailedError {
        name: "Cool Mod".to_string(),
        identifier: 123,
    });
    assert_eq!(
        DownloadState::Requested.request(&cool_mod()),
        (DownloadState::Requested, None)
    );
    assert_eq!(
        DownloadState::Succeeded.request(&cool_mod()),
        (DownloadState::Succeeded, None)
    );
    assert_eq!(failed.clone().request(&cool_mod()), (failed, None));
}

#[test]
fn a_requested_download_succeeds_on_the_report_of_success() {
    assert_eq!(
        DownloadState::Requested
            .observe(&cool_mod(), "Success. Downloaded item 123 to /staging/123\n"),
        DownloadState::Succeeded
    );
}

#[test]
fn a_requested_download_fails_on_the_report_of_failure() {
    assert_eq!(
        DownloadState::Requested.observe(&cool_mod(), "ERROR! Download item 123 failed (Failure).\n"),
        DownloadState::Failed(DownloadFailedError {
            name: "Cool Mod".to_string(),
            identifier: 123,
        })
    );
}

#[test]
fn a_requested_download_waits_through_other_lines() {
    for line in [
        "Downloading item 123 ...\n",
        "Success. Downloaded item 124 to /staging/124\n",
        "ERROR! Download item 12 failed (Failure).\n",
        "",
    ] {
        assert_eq!(
            DownloadState::Requested.observe(&cool_mod(), line),
            DownloadState::Requested,
            "{:?}",
            line
        );
    }
}

#[test]
fn only_a_requested_download_takes_an_answer() {
    let success = "Success. Downloaded item 123 to /staging/123\n";
    let failure = "ERROR! Download item 123 failed (Failure).\n";
    let failed = DownloadState::Failed(DownloadFailedError {
        name: "Cool Mod".to_string(),
        identifier: 123,
    });
    assert_eq!(DownloadState::Idle.observe(&cool_mod(), success), DownloadState::Idle);
    assert_eq!(DownloadState::Idle.observe(&cool_mod(), failure), DownloadState::Idle);
    assert_eq!(DownloadState::Succeeded.observe(&cool_mod(), failure), DownloadState::Succeeded);
    assert_eq!(failed.clone().observe(&cool_mod(), success), failed);
}
