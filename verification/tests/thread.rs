use gitview::hash::repo_hash;
use gitview::thread::{
    corrupt_extension, epoch_of, now_epoch, quarantine_note, reanchor, staging_extension,
    store_path, AgentRef, Anchor, AnchorFix, Author, StoreRead, Thread, ThreadState, ThreadStore,
};

fn anchor() -> Anchor {
    Anchor {
        file: "src/a.rs".into(),
        start: 10,
        end: 12,
        cached: false,
        snippet: String::new(),
        blob: None,
        head_sha: None,
    }
}

#[test]
fn a_reply_moves_the_thread_to_answered() {
    let mut t = Thread::new(1, anchor(), "why?".into());
    assert_eq!(t.state, ThreadState::Draft);
    assert!(t.has_unsent());

    t.mark_sent(AgentRef {
        pane: "w1:p1".into(),
        agent: "scribe".into(),
        session: Some("uuid".into()),
        session_kind: Some("id".into()),
    });
    assert_eq!(t.state, ThreadState::Sent);
    assert!(!t.has_unsent(), "a sent turn must not be re-delivered");

    t.push(Author::Agent, "because.".into());
    assert_eq!(t.state, ThreadState::Answered);
    assert!(!t.has_unsent(), "an agent turn is not something we send");
    // The reply is stored, but `preview` is your own newest note — the
    // notes view lists what you asked, not what came back.
    assert_eq!(t.turns.last().unwrap().text, "because.");
    assert_eq!(t.preview(), "why?");
}

#[test]
fn a_reply_after_an_answer_is_unsent_again() {
    let mut t = Thread::new(1, anchor(), "why?".into());
    t.mark_sent(AgentRef {
        pane: "w1:p1".into(),
        agent: "scribe".into(),
        session: None,
        session_kind: None,
    });
    t.push(Author::Agent, "because.".into());
    assert_eq!(t.state, ThreadState::Answered);
    t.push(Author::Human, "follow-up".into());
    assert!(t.has_unsent());
    assert_eq!(t.unsent().len(), 1, "only the new turn is pending");
    assert_eq!(
        t.state,
        ThreadState::Draft,
        "the badge must not still claim the agent has the ball while \
         the footer counts this thread as unsent"
    );
}

#[test]
fn resolved_threads_are_never_resent() {
    let mut t = Thread::new(1, anchor(), "why?".into());
    t.state = ThreadState::Resolved;
    assert!(!t.has_unsent());
}

#[test]
fn an_unchanged_file_anchors_exactly() {
    let mut a = anchor();
    a.blob = Some("abc".into());
    assert_eq!(reanchor(&a, Some("abc"), &[]), AnchorFix::Exact);
}

#[test]
fn a_rewritten_file_follows_the_snippet() {
    // The happy path that breaks naive re-anchoring: the agent did the
    // fix, so the code moved.
    let mut a = anchor();
    a.blob = Some("old".into());
    a.snippet = "+    let x = compute();\n+    return x;\n".into();
    let file = vec![
        "// a new header comment",
        "// pushed everything down",
        "fn main() {",
        "    let x = compute();",
        "    return x;",
        "}",
    ];
    assert_eq!(reanchor(&a, Some("new"), &file), AnchorFix::Moved(4));
}

#[test]
fn a_deleted_snippet_is_lost_not_silently_exact() {
    let mut a = anchor();
    a.blob = Some("old".into());
    a.snippet = "+    let x = compute();\n".into();
    assert_eq!(
        reanchor(&a, Some("new"), &["fn main() {}"]),
        AnchorFix::Lost
    );
}

#[test]
fn removed_lines_do_not_participate_in_the_search() {
    let mut a = anchor();
    a.blob = Some("old".into());
    // Only the `-` line would match; it must not count.
    a.snippet = "-    let gone = 1;\n".into();
    assert_eq!(
        reanchor(&a, Some("new"), &["    let gone = 1;"]),
        AnchorFix::Lost
    );
}

#[test]
fn a_whole_file_thread_never_goes_lost() {
    let mut a = anchor();
    a.start = 0;
    a.end = 0;
    a.blob = Some("old".into());
    assert_eq!(reanchor(&a, Some("new"), &["anything"]), AnchorFix::Exact);
}

// ---- the store --------------------------------------------------------------

#[test]
fn next_id_is_reseeded_above_every_loaded_id() {
    // The dangerous corruption: next_id below an existing id.
    let mut store = ThreadStore::empty("/repo");
    store.threads.push(Thread::new(7, anchor(), "a".into()));
    store.threads.push(Thread::new(9, anchor(), "b".into()));
    store.next_id = 2;

    let loaded = ThreadStore::load_from(StoreRead::Decoded(store), "/repo");
    assert_eq!(loaded.note, None);
    assert!(!loaded.quarantine);
    let mut store = loaded.store;
    assert_eq!(store.next_id, 10);
    assert_eq!(store.alloc_id(), 10, "a new thread must not collide");
    assert_eq!(store.alloc_id(), 11);
}

#[test]
fn duplicate_ids_are_dropped_on_load() {
    let mut store = ThreadStore::empty("/repo");
    store.threads.push(Thread::new(3, anchor(), "first".into()));
    store
        .threads
        .push(Thread::new(3, anchor(), "shadow".into()));

    let loaded = ThreadStore::load_from(StoreRead::Decoded(store), "/repo");
    assert_eq!(loaded.store.threads.len(), 1);
    assert_eq!(loaded.store.threads[0].preview(), "first");
    assert!(loaded.note.unwrap().contains("duplicate"));
}

#[test]
fn missing_file_is_not_an_error() {
    let loaded = ThreadStore::load_from(StoreRead::Missing, "/repo");
    assert!(loaded.store.is_empty());
    assert_eq!(loaded.note, None, "first run must not flash");
    assert!(!loaded.quarantine);
}

#[test]
fn a_corrupt_store_is_quarantined_not_overwritten() {
    let loaded = ThreadStore::load_from(
        StoreRead::Undecodable("key must be a string at line 1 column 3".into()),
        "/repo",
    );
    assert!(loaded.store.is_empty());
    assert!(loaded.note.unwrap().contains("unreadable"));
    assert!(loaded.quarantine, "the bad file must be moved aside");
    assert_eq!(corrupt_extension(false, 1_700_000_000), "json.corrupt");
}

/// Only unreachable, not unreadable for good: the file must not be written
/// over.
#[test]
fn an_unreadable_store_is_moved_aside_rather_than_overwritten() {
    let loaded = ThreadStore::load_from(
        StoreRead::Unreadable("Is a directory (os error 21)".into()),
        "/repo",
    );
    assert!(loaded.store.is_empty());
    let err = loaded.note.unwrap();
    assert!(err.contains("could not read threads"), "{err}");
    assert!(loaded.quarantine);
}

#[test]
fn a_second_quarantine_does_not_destroy_the_first() {
    let first = corrupt_extension(false, 1_700_000_000);
    let second = corrupt_extension(true, 1_700_000_000);
    assert_eq!(first, "json.corrupt");
    assert_ne!(first, second, "the first quarantine must survive");
    assert_eq!(second, "json.corrupt.1700000000");
}

#[test]
fn a_future_version_is_quarantined_not_parsed() {
    let mut store = ThreadStore::empty("/r");
    store.version = 99;
    let loaded = ThreadStore::load_from(StoreRead::Decoded(store), "/repo");
    assert!(loaded.store.is_empty());
    assert!(loaded.note.unwrap().contains("version 99"));
    assert!(loaded.quarantine);
}

#[test]
fn saving_leaves_no_temp_file_behind() {
    let name = staging_extension(4242);
    assert!(name.ends_with(".tmp"), "{name}");
    assert!(name.contains("4242"), "{name}");
}

#[test]
fn save_round_trips_every_field() {
    let mut store = ThreadStore::empty("/repo");
    store.base_ref = Some("origin/main".into());
    let id = store.alloc_id();
    let mut t = Thread::new(id, anchor(), "q".into());
    t.anchor.snippet = "+added\n context\n".into();
    t.anchor.blob = Some("deadbeef".into());
    t.mark_sent(AgentRef {
        pane: "w1:p1".into(),
        agent: "scribe".into(),
        session: Some("uuid".into()),
        session_kind: Some("id".into()),
    });
    t.push(Author::Agent, "a".into());
    store.threads.push(t);

    let loaded = ThreadStore::load_from(StoreRead::Decoded(store.clone()), "/repo");
    assert_eq!(loaded.note, None);
    assert_eq!(loaded.store, store);
}

#[test]
fn a_store_keeps_threads_by_id() {
    let mut store = ThreadStore::empty("/repo");
    assert!(store.is_empty());
    store.threads.push(Thread::new(4, anchor(), "a".into()));
    store.threads.push(Thread::new(8, anchor(), "b".into()));
    assert_eq!(store.len(), 2);
    assert!(store.has_unsent());
    assert_eq!(store.get(8).unwrap().preview(), "b");
    assert!(store.get(5).is_none());
    store.get_mut(8).unwrap().state = ThreadState::Resolved;
    assert!(!store.get(8).unwrap().has_unsent());
    assert!(store.remove(4));
    assert!(!store.remove(4));
    assert_eq!(store.len(), 1);
    assert!(!store.has_unsent());
}

#[test]
fn the_store_is_named_after_the_socket_or_the_repository() {
    assert_eq!(
        store_path(Some("/run/views/abc.sock"), "/repo", "/state"),
        "/state/threads/abc.json"
    );
    let own = store_path(None, "/repo", "/state");
    assert_eq!(own, format!("/state/threads/{}.json", repo_hash("/repo")));
    assert_ne!(own, store_path(None, "/other", "/state"));
}

#[test]
fn the_note_says_where_the_bad_file_went() {
    assert_eq!(
        quarantine_note("threads unreadable", Ok("/s/t.json.corrupt".into())),
        "threads unreadable → /s/t.json.corrupt"
    );
    assert_eq!(
        quarantine_note("threads unreadable", Err("denied".into())),
        "threads unreadable (could not quarantine: denied)"
    );
}

#[test]
fn the_clock_before_the_epoch_reads_zero() {
    assert_eq!(epoch_of(None), 0);
    assert_eq!(epoch_of(Some(12)), 12);
    assert!(now_epoch() > 1_600_000_000);
}

#[test]
fn only_the_newest_unsent_turn_can_be_edited() {
    let mut t = Thread::new(1, anchor(), "one".into());
    assert_eq!(t.editable_turn(), Some(0));
    t.push(Author::Human, "two".into());
    assert_eq!(t.unsent_indices(), vec![0, 1]);
    assert_eq!(t.editable_turn(), Some(1));
    t.mark_sent(AgentRef {
        pane: "w1:p1".into(),
        agent: "scribe".into(),
        session: None,
        session_kind: None,
    });
    assert_eq!(t.editable_turn(), None);
    let meta = t.meta();
    assert_eq!(meta.turns, 2);
    assert_eq!(meta.text, "two");
    assert_eq!(meta.state, ThreadState::Sent);
}

#[test]
fn a_blank_line_of_the_quoted_text_counts() {
    let a = Anchor {
        snippet: "+a\n+\n+b\n".into(),
        ..anchor()
    };
    assert_eq!(
        reanchor(&a, None, &["x", "a", "", "b"]),
        AnchorFix::Moved(2)
    );
    assert_eq!(reanchor(&a, None, &["x", "a", "b"]), AnchorFix::Lost);
}

#[test]
fn what_is_told_of_a_thread_is_its_newest_turn() {
    let mut t = Thread::new(4, anchor(), "why?".into());
    assert_eq!(t.meta().text, "why?");
    t.push(Author::Agent, "because.".into());
    assert_eq!(t.meta().text, "because.");
    assert_eq!(t.meta().turns, 2);
    assert_eq!(t.preview(), "why?");
}

#[test]
fn a_resolved_thread_stays_resolved() {
    let mut t = Thread::new(1, anchor(), "why?".into());
    t.state = ThreadState::Resolved;
    t.push(Author::Agent, "because.".into());
    assert_eq!(t.state, ThreadState::Resolved);
    t.mark_sent(AgentRef {
        pane: "w1:p1".into(),
        agent: "scribe".into(),
        session: None,
        session_kind: None,
    });
    assert_eq!(t.state, ThreadState::Resolved);
}
