use bundler::bundle::{Bundle, Document, NoMetadata};
use bundler::error::{FetchError, RefreshError, Relation, SerializationError};
use bundler::refresh::{Fetched, Idle};
use bundler::store::{fetch_initial_bundle, BundleFile, BundleStore};

fn bundle(proposals: &str) -> Bundle {
    let doc = |text: &str| Document::new(text.as_bytes().to_vec());
    Bundle::new(NoMetadata.encode(), doc(proposals), doc("{}"), doc("{}"))
}

fn store(proposals: &str) -> BundleStore {
    BundleStore::new(BundleFile::try_from(bundle(proposals)).unwrap())
}

#[test]
fn pair_holds_the_archive_of_its_bundle() {
    let pair = BundleFile::try_from(bundle("[1]")).unwrap();
    assert_eq!(pair.bundle().revision(), bundle("[1]").revision());
    assert_eq!(pair.file(), bundle("[1]").to_tar_gz().unwrap().as_slice());
}

#[test]
fn pair_is_refused_when_packing_fails() {
    assert_eq!(
        BundleFile::try_from(bundle("[1")).err(),
        Some(SerializationError::Snapshot(Relation::Proposals))
    );
}

#[test]
fn swap_replaces_the_whole_pair() {
    let mut store = store("[1]");
    let before = store.read().file().to_vec();
    assert_eq!(store.read().bundle().revision(), bundle("[1]").revision());
    store.swap(BundleFile::try_from(bundle("[2]")).unwrap());
    assert_eq!(store.read().bundle().revision(), bundle("[2]").revision());
    assert_eq!(
        store.read().file(),
        bundle("[2]").to_tar_gz().unwrap().as_slice()
    );
    assert_ne!(store.read().file(), before.as_slice());
}

#[test]
fn first_fetch_must_succeed() {
    let store = fetch_initial_bundle(Ok(bundle("[1]"))).ok().unwrap();
    assert_eq!(store.read().bundle().revision(), bundle("[1]").revision());
    assert_eq!(
        fetch_initial_bundle(Err(FetchError::Connection)).err(),
        Some(RefreshError::Fetch(FetchError::Connection))
    );
    assert_eq!(
        fetch_initial_bundle(Ok(bundle("[1"))).err(),
        Some(RefreshError::Serialization(SerializationError::Snapshot(
            Relation::Proposals
        )))
    );
}

#[test]
fn first_deadline_is_one_interval_after_the_start() {
    let idle = Idle::start(1_000, 60);
    assert_eq!(idle.deadline(), 1_060);
    assert_eq!(idle.interval(), 60);
}

#[test]
fn delay_is_what_is_left_until_the_deadline() {
    let idle = Idle::start(1_000, 60);
    assert_eq!(idle.delay(1_000), 60);
    assert_eq!(idle.delay(1_059), 1);
    assert_eq!(idle.delay(1_060), 0);
}

#[test]
fn overrun_tick_is_due_at_once() {
    let idle = Idle::start(1_000, 60);
    assert_eq!(idle.delay(5_000), 0);
}

#[test]
fn successful_tick_installs_the_new_pair() {
    let mut store = store("[1]");
    let idle = Idle::start(0, 60);
    let fetching = idle.fire();
    let (idle, failure) = fetching.finish(Ok(bundle("[2]"))).settle(&mut store);
    assert_eq!(failure, None);
    assert_eq!(idle.deadline(), 120);
    assert_eq!(store.read().bundle().revision(), bundle("[2]").revision());
    assert_eq!(
        store.read().file(),
        bundle("[2]").to_tar_gz().unwrap().as_slice()
    );
}

#[test]
fn swapping_state_installs_its_pair() {
    let mut store = store("[1]");
    match Idle::start(0, 60).fire().finish(Ok(bundle("[2]"))) {
        Fetched::Success(swapping) => {
            let idle = swapping.install(&mut store);
            assert_eq!(idle.deadline(), 120);
            assert_eq!(idle.interval(), 60);
        }
        Fetched::Failure(_, _) => panic!("the fetch succeeded"),
    }
    assert_eq!(store.read().bundle().revision(), bundle("[2]").revision());
}

#[test]
fn failed_fetch_keeps_the_served_pair() {
    let mut store = store("[1]");
    let before = store.read().file().to_vec();
    let fetching = Idle::start(0, 60).fire();
    let (idle, failure) = fetching.finish(Err(FetchError::Query)).settle(&mut store);
    assert_eq!(failure, Some(RefreshError::Fetch(FetchError::Query)));
    assert_eq!(store.read().file(), before.as_slice());
    assert_eq!(store.read().bundle().revision(), bundle("[1]").revision());
    assert_eq!(idle.deadline(), 120);
}

#[test]
fn failed_packing_keeps_the_served_pair() {
    let mut store = store("[1]");
    let before = store.read().file().to_vec();
    let fetching = Idle::start(0, 60).fire();
    let (idle, failure) = fetching.finish(Ok(bundle("oops"))).settle(&mut store);
    assert_eq!(
        failure,
        Some(RefreshError::Serialization(SerializationError::Snapshot(
            Relation::Proposals
        )))
    );
    assert_eq!(store.read().file(), before.as_slice());
    assert_eq!(idle.deadline(), 120);
}

#[test]
fn deadlines_stay_one_interval_apart_across_failures() {
    let mut store = store("[1]");
    let mut idle = Idle::start(100, 60);
    let mut deadlines = Vec::new();
    for tick in 0..5 {
        deadlines.push(idle.deadline());
        assert!(idle.can_fire());
        let fetched = if tick % 2 == 0 {
            Err(FetchError::Connection)
        } else {
            Ok(bundle("[2]"))
        };
        idle = idle.fire().finish(fetched).settle(&mut store).0;
    }
    assert_eq!(deadlines, vec![160, 220, 280, 340, 400]);
    assert_eq!(idle.deadline(), 460);
}

#[test]
fn last_deadline_cannot_fire() {
    let idle = Idle::start(u64::MAX - 10, 10);
    assert_eq!(idle.deadline(), u64::MAX);
    assert!(!idle.can_fire());
    let idle = Idle::start(u64::MAX - 10, 0);
    assert!(idle.can_fire());
}
