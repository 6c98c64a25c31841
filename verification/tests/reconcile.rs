use everest::{build_patch, Envelope, Envelopes, Flag, Flags, Hunk, HunkKind};

fn envelope(id: &str, flags: &[Flag]) -> Envelope {
    Envelope { id: id.into(), flags: Flags::from_slice(flags) }
}

fn snapshot(envelopes: &[(&str, &[Flag])]) -> Envelopes {
    let mut snapshot = Envelopes::new();
    for (id, flags) in envelopes {
        snapshot.insert(envelope(id, flags));
    }
    snapshot
}

fn id_of(hunk: &Hunk) -> &str {
    match hunk {
        Hunk::Imap(kind) | Hunk::Maildir(kind) => match kind {
            HunkKind::AddMsg(id)
            | HunkKind::RemoveMsg(id)
            | HunkKind::AddFlag(id, _)
            | HunkKind::RemoveFlag(id, _) => id,
        },
    }
}

fn is_message_level(hunk: &Hunk) -> bool {
    match hunk {
        Hunk::Imap(kind) | Hunk::Maildir(kind) => {
            matches!(kind, HunkKind::AddMsg(_) | HunkKind::RemoveMsg(_))
        }
    }
}

fn mirrored(hunk: &Hunk) -> Hunk {
    match hunk {
        Hunk::Imap(kind) => Hunk::Maildir(kind.clone()),
        Hunk::Maildir(kind) => Hunk::Imap(kind.clone()),
    }
}

fn hunks_of(patch: &[Hunk], id: &str) -> Vec<Hunk> {
    patch.iter().filter(|hunk| id_of(hunk) == id).cloned().collect()
}

#[test]
fn empty_snapshots_give_an_empty_patch() {
    let patch = build_patch(Envelopes::new(), Envelopes::new(), Envelopes::new(), Envelopes::new());
    assert_eq!(Vec::<Hunk>::new(), patch);
}

#[test]
fn unchanged_sides_give_an_empty_patch() {
    let remote: &[(&str, &[Flag])] = &[("1", &[Flag::Seen]), ("2", &[Flag::Flagged, Flag::Draft])];
    let local: &[(&str, &[Flag])] = &[("2", &[Flag::Trashed]), ("3", &[])];
    let patch = build_patch(snapshot(remote), snapshot(remote), snapshot(local), snapshot(local));
    assert_eq!(Vec::<Hunk>::new(), patch);
}

#[test]
fn unchanged_sides_listed_in_another_order_give_an_empty_patch() {
    let prev: &[(&str, &[Flag])] = &[("1", &[Flag::Seen]), ("2", &[Flag::Flagged])];
    let next: &[(&str, &[Flag])] = &[("2", &[Flag::Flagged]), ("1", &[Flag::Seen])];
    let patch = build_patch(snapshot(prev), snapshot(next), snapshot(next), snapshot(prev));
    assert_eq!(Vec::<Hunk>::new(), patch);
}

#[test]
fn converged_sides_give_an_empty_patch() {
    let prev: &[(&str, &[Flag])] = &[("1", &[Flag::Seen])];
    let next: &[(&str, &[Flag])] = &[("1", &[Flag::Seen, Flag::Replied]), ("2", &[])];
    let first = build_patch(snapshot(prev), snapshot(next), snapshot(prev), snapshot(next));
    assert_eq!(
        vec![Hunk::Maildir(HunkKind::AddFlag("1".into(), Flag::Replied))],
        first
    );
    let second = build_patch(snapshot(next), snapshot(next), snapshot(next), snapshot(next));
    assert_eq!(Vec::<Hunk>::new(), second);
}

#[test]
fn scenario_message_new_on_local_side() {
    let one: &[(&str, &[Flag])] = &[("1", &[Flag::Seen])];
    let both: &[(&str, &[Flag])] = &[("1", &[Flag::Seen]), ("2", &[Flag::Flagged])];
    let patch = build_patch(snapshot(one), snapshot(one), snapshot(one), snapshot(both));
    assert_eq!(vec![Hunk::Imap(HunkKind::AddMsg("2".into()))], patch);
}

#[test]
fn scenario_message_gone_from_local_side() {
    let one: &[(&str, &[Flag])] = &[("1", &[Flag::Seen])];
    let both: &[(&str, &[Flag])] = &[("1", &[Flag::Seen]), ("2", &[Flag::Flagged])];
    let patch = build_patch(snapshot(both), snapshot(both), snapshot(both), snapshot(one));
    assert_eq!(vec![Hunk::Imap(HunkKind::RemoveMsg("2".into()))], patch);
}

#[test]
fn scenario_flag_set_on_local_side() {
    let before: &[(&str, &[Flag])] = &[("1", &[Flag::Seen, Flag::Replied])];
    let after: &[(&str, &[Flag])] = &[("1", &[Flag::Seen, Flag::Replied, Flag::Flagged])];
    let patch = build_patch(snapshot(before), snapshot(before), snapshot(before), snapshot(after));
    assert_eq!(vec![Hunk::Imap(HunkKind::AddFlag("1".into(), Flag::Flagged))], patch);
}

#[test]
fn scenario_flag_cleared_on_remote_side() {
    let before: &[(&str, &[Flag])] = &[("1", &[Flag::Seen, Flag::Flagged, Flag::Replied])];
    let after: &[(&str, &[Flag])] = &[("1", &[Flag::Seen, Flag::Replied])];
    let patch = build_patch(snapshot(before), snapshot(after), snapshot(before), snapshot(before));
    assert_eq!(vec![Hunk::Maildir(HunkKind::RemoveFlag("1".into(), Flag::Flagged))], patch);
}

#[test]
fn message_new_on_remote_side_is_added_locally() {
    let none: &[(&str, &[Flag])] = &[];
    let one: &[(&str, &[Flag])] = &[("9", &[Flag::Seen])];
    let patch = build_patch(snapshot(none), snapshot(one), snapshot(none), snapshot(none));
    assert_eq!(vec![Hunk::Maildir(HunkKind::AddMsg("9".into()))], patch);
}

#[test]
fn message_gone_from_remote_side_is_removed_locally() {
    let none: &[(&str, &[Flag])] = &[];
    let one: &[(&str, &[Flag])] = &[("9", &[Flag::Seen])];
    let patch = build_patch(snapshot(one), snapshot(none), snapshot(one), snapshot(one));
    assert_eq!(vec![Hunk::Maildir(HunkKind::RemoveMsg("9".into()))], patch);
}

#[test]
fn combinations_that_no_rule_covers_are_ignored() {
    let none: &[(&str, &[Flag])] = &[];
    let one: &[(&str, &[Flag])] = &[("9", &[Flag::Seen])];
    let cases: [[bool; 4]; 11] = [
        [false, false, false, false],
        [true, false, false, false],
        [false, false, true, false],
        [true, true, false, false],
        [false, false, true, true],
        [true, false, true, false],
        [false, true, false, true],
        [true, false, false, true],
        [false, true, true, false],
        [true, true, false, true],
        [false, true, true, true],
    ];
    for case in cases {
        let pick = |present: bool| if present { snapshot(one) } else { snapshot(none) };
        let patch = build_patch(pick(case[0]), pick(case[1]), pick(case[2]), pick(case[3]));
        assert_eq!(Vec::<Hunk>::new(), patch, "{:?}", case);
    }
}

#[test]
fn remote_change_wins_over_local_change() {
    let without: &[(&str, &[Flag])] = &[("1", &[])];
    let with: &[(&str, &[Flag])] = &[("1", &[Flag::Seen])];
    let patch = build_patch(snapshot(without), snapshot(with), snapshot(without), snapshot(with));
    assert_eq!(vec![Hunk::Maildir(HunkKind::AddFlag("1".into(), Flag::Seen))], patch);
    let patch = build_patch(snapshot(with), snapshot(without), snapshot(without), snapshot(with));
    assert_eq!(vec![Hunk::Maildir(HunkKind::RemoveFlag("1".into(), Flag::Seen))], patch);
}

#[test]
fn local_gain_is_sent_where_remote_keeps_the_flag() {
    let without: &[(&str, &[Flag])] = &[("1", &[])];
    let with: &[(&str, &[Flag])] = &[("1", &[Flag::Seen])];
    let patch = build_patch(snapshot(with), snapshot(with), snapshot(without), snapshot(with));
    assert_eq!(vec![Hunk::Imap(HunkKind::AddFlag("1".into(), Flag::Seen))], patch);
}

#[test]
fn local_loss_is_sent_where_remote_lacks_the_flag() {
    let without: &[(&str, &[Flag])] = &[("1", &[])];
    let with: &[(&str, &[Flag])] = &[("1", &[Flag::Seen])];
    let patch = build_patch(snapshot(without), snapshot(without), snapshot(with), snapshot(without));
    assert_eq!(vec![Hunk::Imap(HunkKind::RemoveFlag("1".into(), Flag::Seen))], patch);
}

#[test]
fn flag_hunks_of_one_message_follow_the_flag_order() {
    let none: &[(&str, &[Flag])] = &[("1", &[])];
    let all: &[(&str, &[Flag])] =
        &[("1", &[Flag::Trashed, Flag::Seen, Flag::Replied, Flag::Flagged, Flag::Draft])];
    let patch = build_patch(snapshot(none), snapshot(all), snapshot(none), snapshot(none));
    assert_eq!(
        vec![
            Hunk::Maildir(HunkKind::AddFlag("1".into(), Flag::Draft)),
            Hunk::Maildir(HunkKind::AddFlag("1".into(), Flag::Flagged)),
            Hunk::Maildir(HunkKind::AddFlag("1".into(), Flag::Replied)),
            Hunk::Maildir(HunkKind::AddFlag("1".into(), Flag::Seen)),
            Hunk::Maildir(HunkKind::AddFlag("1".into(), Flag::Trashed)),
        ],
        patch
    );
}

#[test]
fn mixed_flag_changes_of_one_message() {
    let remote_prev: &[(&str, &[Flag])] = &[("1", &[Flag::Draft, Flag::Seen])];
    let remote_next: &[(&str, &[Flag])] = &[("1", &[Flag::Seen, Flag::Trashed])];
    let local_prev: &[(&str, &[Flag])] = &[("1", &[Flag::Draft, Flag::Seen])];
    let local_next: &[(&str, &[Flag])] = &[("1", &[Flag::Draft, Flag::Flagged])];
    let patch = build_patch(
        snapshot(remote_prev),
        snapshot(remote_next),
        snapshot(local_prev),
        snapshot(local_next),
    );
    assert_eq!(
        vec![
            Hunk::Maildir(HunkKind::RemoveFlag("1".into(), Flag::Draft)),
            Hunk::Imap(HunkKind::AddFlag("1".into(), Flag::Flagged)),
            Hunk::Imap(HunkKind::RemoveFlag("1".into(), Flag::Seen)),
            Hunk::Maildir(HunkKind::AddFlag("1".into(), Flag::Trashed)),
        ],
        patch
    );
}

#[test]
fn messages_are_gone_through_in_order_of_first_occurrence() {
    let remote_prev: &[(&str, &[Flag])] = &[("d", &[]), ("a", &[])];
    let remote_next: &[(&str, &[Flag])] = &[("c", &[]), ("a", &[Flag::Seen])];
    let local_prev: &[(&str, &[Flag])] = &[("d", &[]), ("a", &[])];
    let local_next: &[(&str, &[Flag])] = &[("b", &[]), ("d", &[]), ("a", &[])];
    let patch = build_patch(
        snapshot(remote_prev),
        snapshot(remote_next),
        snapshot(local_prev),
        snapshot(local_next),
    );
    assert_eq!(
        vec![
            Hunk::Maildir(HunkKind::AddMsg("c".into())),
            Hunk::Maildir(HunkKind::AddFlag("a".into(), Flag::Seen)),
            Hunk::Maildir(HunkKind::RemoveMsg("d".into())),
            Hunk::Imap(HunkKind::AddMsg("b".into())),
        ],
        patch
    );
}

#[test]
fn message_level_hunk_is_the_only_hunk_of_its_message() {
    let remote_prev: &[(&str, &[Flag])] =
        &[("1", &[Flag::Seen]), ("2", &[Flag::Seen]), ("3", &[Flag::Draft])];
    let remote_next: &[(&str, &[Flag])] =
        &[("1", &[Flag::Flagged]), ("3", &[Flag::Seen]), ("4", &[Flag::Seen])];
    let local_prev: &[(&str, &[Flag])] =
        &[("1", &[Flag::Seen]), ("2", &[Flag::Seen]), ("3", &[Flag::Draft])];
    let local_next: &[(&str, &[Flag])] = &[
        ("1", &[Flag::Seen, Flag::Trashed]),
        ("2", &[Flag::Replied]),
        ("5", &[Flag::Replied]),
    ];
    let patch = build_patch(
        snapshot(remote_prev),
        snapshot(remote_next),
        snapshot(local_prev),
        snapshot(local_next),
    );
    assert_eq!(
        vec![
            Hunk::Maildir(HunkKind::AddFlag("1".into(), Flag::Flagged)),
            Hunk::Maildir(HunkKind::RemoveFlag("1".into(), Flag::Seen)),
            Hunk::Imap(HunkKind::AddFlag("1".into(), Flag::Trashed)),
            Hunk::Imap(HunkKind::RemoveMsg("3".into())),
            Hunk::Maildir(HunkKind::AddMsg("4".into())),
            Hunk::Maildir(HunkKind::RemoveMsg("2".into())),
            Hunk::Imap(HunkKind::AddMsg("5".into())),
        ],
        patch
    );
    for (i, hunk) in patch.iter().enumerate() {
        if is_message_level(hunk) {
            for (j, other) in patch.iter().enumerate() {
                assert!(i == j || id_of(hunk) != id_of(other));
            }
        }
    }
}

#[test]
fn exchanging_the_sides_mirrors_the_hunks_of_each_message() {
    let remote_prev: &[(&str, &[Flag])] =
        &[("1", &[Flag::Seen]), ("2", &[Flag::Seen]), ("3", &[Flag::Draft])];
    let remote_next: &[(&str, &[Flag])] =
        &[("1", &[Flag::Flagged]), ("3", &[Flag::Seen]), ("4", &[Flag::Seen])];
    let local_prev: &[(&str, &[Flag])] =
        &[("1", &[Flag::Seen]), ("2", &[Flag::Seen]), ("3", &[Flag::Draft])];
    let local_next: &[(&str, &[Flag])] = &[
        ("1", &[Flag::Seen, Flag::Trashed]),
        ("2", &[Flag::Replied]),
        ("5", &[Flag::Replied]),
    ];
    let patch = build_patch(
        snapshot(remote_prev),
        snapshot(remote_next),
        snapshot(local_prev),
        snapshot(local_next),
    );
    let exchanged = build_patch(
        snapshot(local_prev),
        snapshot(local_next),
        snapshot(remote_prev),
        snapshot(remote_next),
    );
    assert_eq!(patch.len(), exchanged.len());
    for id in ["1", "2", "3", "4", "5", "6"] {
        let expected: Vec<Hunk> = hunks_of(&patch, id).iter().map(mirrored).collect();
        assert_eq!(expected, hunks_of(&exchanged, id), "{}", id);
    }
}

#[test]
fn exchanging_the_sides_differs_where_both_changed_a_flag() {
    let without: &[(&str, &[Flag])] = &[("1", &[])];
    let with: &[(&str, &[Flag])] = &[("1", &[Flag::Seen])];
    let patch = build_patch(snapshot(without), snapshot(with), snapshot(with), snapshot(without));
    let exchanged = build_patch(snapshot(with), snapshot(without), snapshot(without), snapshot(with));
    assert_eq!(vec![Hunk::Maildir(HunkKind::AddFlag("1".into(), Flag::Seen))], patch);
    assert_eq!(vec![Hunk::Maildir(HunkKind::RemoveFlag("1".into(), Flag::Seen))], exchanged);
}
