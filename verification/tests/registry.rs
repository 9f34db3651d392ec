use webview_host::registry::{SessionRegistry, RegistryError};

#[test]
fn begin_then_complete_resolves_exactly_once() {
    let mut r: SessionRegistry<&'static str> = SessionRegistry::new();
    let id = r.begin("the receiver");
    assert_eq!(r.complete(id), Ok("the receiver"));
    // the entry is consumed: a duplicate response is stale
    assert_eq!(r.complete(id), Err(RegistryError::UnknownSession));
}

#[test]
fn complete_unknown_id_leaves_others_untouched() {
    let mut r: SessionRegistry<u32> = SessionRegistry::new();
    let a = r.begin(10);
    let b = r.begin(20);
    assert_eq!(r.complete(9999), Err(RegistryError::UnknownSession));
    assert_eq!(r.pending_count(), 2);
    assert_eq!(r.complete(b), Ok(20));
    assert_eq!(r.complete(a), Ok(10));
    assert_eq!(r.pending_count(), 0);
}

#[test]
fn begin_then_cancel_all_returns_the_receiver() {
    let mut r: SessionRegistry<&'static str> = SessionRegistry::new();
    let id = r.begin("caller");
    let drained = r.cancel_all();
    assert_eq!(drained, vec![(id, "caller")]);
    assert_eq!(r.pending_count(), 0);
    // cancelled entries cannot be completed any more
    assert_eq!(r.complete(id), Err(RegistryError::UnknownSession));
    // teardown is idempotent: a second cancellation finds nothing
    assert_eq!(r.cancel_all(), vec![]);
}

#[test]
fn cancel_all_drains_everything_in_order() {
    let mut r: SessionRegistry<u32> = SessionRegistry::new();
    let ids: Vec<u64> = (0..5).map(|k| r.begin(k * 100)).collect();
    let drained = r.cancel_all();
    assert_eq!(drained.len(), 5);
    for (k, (id, v)) in drained.iter().enumerate() {
        assert_eq!(*id, ids[k]);
        assert_eq!(*v, k as u32 * 100);
    }
}

#[test]
fn complete_on_empty_registry_is_unknown() {
    let mut r: SessionRegistry<u8> = SessionRegistry::new();
    assert_eq!(r.complete(0), Err(RegistryError::UnknownSession));
}

#[test]
fn many_begins_return_pairwise_distinct_ids() {
    let mut r: SessionRegistry<()> = SessionRegistry::new();
    let ids: Vec<u64> = (0..100).map(|_| r.begin(())).collect();
    for i in 0..ids.len() {
        for j in 0..i {
            assert_ne!(ids[i], ids[j]);
        }
    }
}

#[test]
fn ids_are_not_reused_while_pending() {
    let mut r: SessionRegistry<u8> = SessionRegistry::new();
    let a = r.begin(1);
    assert_eq!(r.complete(a), Ok(1));
    // even after completion this registry never hands the same id out again
    let b = r.begin(2);
    assert_ne!(a, b);
}

#[test]
fn cancel_all_resolves_receiver_to_closed_error_carrying_reason() {
    // the runtime's delivery step, driven end to end: every caller pending
    // at teardown is woken with a closed-error carrying the reason
    let rt = tokio::runtime::Builder::new_current_thread().build().unwrap();
    rt.block_on(async {
        type Outcome = Result<Vec<u8>, String>;
        let mut reg: SessionRegistry<tokio::sync::oneshot::Sender<Outcome>> =
            SessionRegistry::new();
        let (tx1, rx1) = tokio::sync::oneshot::channel::<Outcome>();
        let (tx2, rx2) = tokio::sync::oneshot::channel::<Outcome>();
        reg.begin(tx1);
        reg.begin(tx2);

        let reason = "connection closed";
        for (_id, tx) in reg.cancel_all() {
            tx.send(Err(reason.to_string())).unwrap();
        }
        assert_eq!(rx1.await.unwrap(), Err(reason.to_string()));
        assert_eq!(rx2.await.unwrap(), Err(reason.to_string()));
    });
}

#[test]
fn complete_delivers_exactly_the_given_result() {
    let rt = tokio::runtime::Builder::new_current_thread().build().unwrap();
    rt.block_on(async {
        type Outcome = Result<Vec<u8>, String>;
        let mut reg: SessionRegistry<tokio::sync::oneshot::Sender<Outcome>> =
            SessionRegistry::new();
        let (tx, rx) = tokio::sync::oneshot::channel::<Outcome>();
        let id = reg.begin(tx);
        let sender = reg.complete(id).unwrap();
        sender.send(Ok(vec![5, 6])).unwrap();
        assert_eq!(rx.await.unwrap(), Ok(vec![5, 6]));
    });
}
