use everest::{build_patch, Envelope, Envelopes, Flag, Flags, Hunk, HunkKind};

#[test]
fn add_imap_msg_test() {
    let env1 = Envelope {
        id: "1".into(),
        flags: Flags::from_slice(&[Flag::Seen]),
    };
    let env2 = Envelope {
        id: "2".into(),
        flags: Flags::from_slice(&[Flag::Flagged]),
    };

    let prev_imap_envelopes = Envelopes::from_slice(&[env1.clone()]);
    let next_imap_envelopes = Envelopes::from_slice(&[env1.clone()]);
    let prev_mdir_envelopes = Envelopes::from_slice(&[env1.clone()]);
    let next_mdir_envelopes = Envelopes::from_slice(&[env1.clone(), env2.clone()]);

    let patch = build_patch(
        prev_imap_envelopes,
        next_imap_envelopes,
        prev_mdir_envelopes,
        next_mdir_envelopes,
    );

    assert_eq!(vec![Hunk::Imap(HunkKind::AddMsg("2".into()))], patch);
}

#[test]
fn remove_imap_msg_test() {
    let env1 = Envelope {
        id: "1".into(),
        flags: Flags::from_slice(&[Flag::Seen]),
    };
    let env2 = Envelope {
        id: "2".into(),
        flags: Flags::from_slice(&[Flag::Flagged]),
    };

    let prev_imap_envelopes = Envelopes::from_slice(&[env1.clone(), env2.clone()]);
    let next_imap_envelopes = Envelopes::from_slice(&[env1.clone(), env2.clone()]);
    let prev_mdir_envelopes = Envelopes::from_slice(&[env1.clone(), env2.clone()]);
    let next_mdir_envelopes = Envelopes::from_slice(&[env1.clone()]);

    let patch = build_patch(
        prev_imap_envelopes,
        next_imap_envelopes,
        prev_mdir_envelopes,
        next_mdir_envelopes,
    );

    assert_eq!(vec![Hunk::Imap(HunkKind::RemoveMsg("2".into()))], patch);
}

#[test]
fn add_mdir_msg_test() {
    let env1 = Envelope {
        id: "1".into(),
        flags: Flags::from_slice(&[Flag::Seen]),
    };
    let env2 = Envelope {
        id: "2".into(),
        flags: Flags::from_slice(&[Flag::Flagged]),
    };

    let prev_imap_envelopes = Envelopes::from_slice(&[env1.clone()]);
    let next_imap_envelopes = Envelopes::from_slice(&[env1.clone(), env2.clone()]);
    let prev_mdir_envelopes = Envelopes::from_slice(&[env1.clone()]);
    let next_mdir_envelopes = Envelopes::from_slice(&[env1.clone()]);

    let patch = build_patch(
        prev_imap_envelopes,
        next_imap_envelopes,
        prev_mdir_envelopes,
        next_mdir_envelopes,
    );

    assert_eq!(vec![Hunk::Maildir(HunkKind::AddMsg("2".into()))], patch);
}

#[test]
fn remove_mdir_msg_test() {
    let env1 = Envelope {
        id: "1".into(),
        flags: Flags::from_slice(&[Flag::Seen]),
    };
    let env2 = Envelope {
        id: "2".into(),
        flags: Flags::from_slice(&[Flag::Flagged]),
    };

    let prev_imap_envelopes = Envelopes::from_slice(&[env1.clone(), env2.clone()]);
    let next_imap_envelopes = Envelopes::from_slice(&[env1.clone()]);
    let prev_mdir_envelopes = Envelopes::from_slice(&[env1.clone(), env2.clone()]);
    let next_mdir_envelopes = Envelopes::from_slice(&[env1.clone(), env2.clone()]);

    let patch = build_patch(
        prev_imap_envelopes,
        next_imap_envelopes,
        prev_mdir_envelopes,
        next_mdir_envelopes,
    );

    assert_eq!(vec![Hunk::Maildir(HunkKind::RemoveMsg("2".into()))], patch);
}

#[test]
fn single_add_remove_flag_tests() {
    let e1 = Envelope {
        id: "1".into(),
        flags: Flags::from_slice(&[Flag::Seen, Flag::Replied]),
    };
    let e2 = Envelope {
        id: "1".into(),
        flags: Flags::from_slice(&[Flag::Seen, Flag::Flagged, Flag::Replied]),
    };

    let imap_prev = Envelopes::from_slice(&[e1.clone()]);
    let imap_next = Envelopes::from_slice(&[e1.clone()]);
    let mdir_prev = Envelopes::from_slice(&[e1.clone()]);
    let mdir_next = Envelopes::from_slice(&[e2.clone()]);
    assert_eq!(
        vec![Hunk::Imap(HunkKind::AddFlag("1".into(), Flag::Flagged))],
        build_patch(imap_prev, imap_next, mdir_prev, mdir_next),
    );

    let imap_prev = Envelopes::from_slice(&[e1.clone()]);
    let imap_next = Envelopes::from_slice(&[e2.clone()]);
    let mdir_prev = Envelopes::from_slice(&[e1.clone()]);
    let mdir_next = Envelopes::from_slice(&[e1.clone()]);
    assert_eq!(
        vec![Hunk::Maildir(HunkKind::AddFlag("1".into(), Flag::Flagged))],
        build_patch(imap_prev, imap_next, mdir_prev, mdir_next),
    );

    let imap_prev = Envelopes::from_slice(&[e2.clone()]);
    let imap_next = Envelopes::from_slice(&[e1.clone()]);
    let mdir_prev = Envelopes::from_slice(&[e2.clone()]);
    let mdir_next = Envelopes::from_slice(&[e2.clone()]);
    assert_eq!(
        vec![Hunk::Maildir(HunkKind::RemoveFlag(
            "1".into(),
            Flag::Flagged
        ))],
        build_patch(imap_prev, imap_next, mdir_prev, mdir_next),
    );

    let imap_prev = Envelopes::from_slice(&[e2.clone()]);
    let imap_next = Envelopes::from_slice(&[e2.clone()]);
    let mdir_prev = Envelopes::from_slice(&[e2.clone()]);
    let mdir_next = Envelopes::from_slice(&[e1.clone()]);
    assert_eq!(
        vec![Hunk::Imap(HunkKind::RemoveFlag("1".into(), Flag::Flagged))],
        build_patch(imap_prev, imap_next, mdir_prev, mdir_next),
    );

    let imap_prev = Envelopes::from_slice(&[e1.clone()]);
    let imap_next = Envelopes::from_slice(&[e2.clone()]);
    let mdir_prev = Envelopes::from_slice(&[e2.clone()]);
    let mdir_next = Envelopes::from_slice(&[e1.clone()]);
    assert_eq!(
        vec![Hunk::Maildir(HunkKind::AddFlag("1".into(), Flag::Flagged))],
        build_patch(imap_prev, imap_next, mdir_prev, mdir_next),
    );

    let imap_prev = Envelopes::from_slice(&[e2.clone()]);
    let imap_next = Envelopes::from_slice(&[e1.clone()]);
    let mdir_prev = Envelopes::from_slice(&[e1.clone()]);
    let mdir_next = Envelopes::from_slice(&[e2.clone()]);
    assert_eq!(
        vec![Hunk::Maildir(HunkKind::RemoveFlag(
            "1".into(),
            Flag::Flagged
        ))],
        build_patch(imap_prev, imap_next, mdir_prev, mdir_next),
    );
}
