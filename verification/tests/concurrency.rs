use bundler::bundle::{Bundle, Document, NoMetadata};
use bundler::store::{BundleFile, BundleStore};
use std::sync::Arc;
use tokio::sync::RwLock;

fn bundle(proposals: &str) -> Bundle {
    let doc = |text: &str| Document::new(text.as_bytes().to_vec());
    Bundle::new(NoMetadata.encode(), doc(proposals), doc("{}"), doc("{}"))
}

fn pair(proposals: &str) -> BundleFile {
    BundleFile::try_from(bundle(proposals)).unwrap()
}

#[test]
fn readers_across_a_swap_see_one_whole_pair() {
    let before = (
        bundle("[1]").revision().to_string(),
        bundle("[1]").to_tar_gz().unwrap(),
    );
    let after = (
        bundle("[2]").revision().to_string(),
        bundle("[2]").to_tar_gz().unwrap(),
    );
    let runtime = tokio::runtime::Builder::new_multi_thread()
        .worker_threads(4)
        .build()
        .unwrap();
    runtime.block_on(async {
        let store = Arc::new(RwLock::new(BundleStore::new(pair("[1]"))));
        let mut readers = Vec::new();
        for reader in 0..64 {
            let store = store.clone();
            readers.push(tokio::spawn(async move {
                let mut seen = Vec::new();
                for round in 0..50 {
                    if (reader + round) % 7 == 0 {
                        tokio::task::yield_now().await;
                    }
                    let guard = store.read().await;
                    let pair = guard.read();
                    seen.push((
                        pair.bundle().revision().to_string(),
                        pair.file().to_vec(),
                    ));
                }
                seen
            }));
        }
        let writer = {
            let store = store.clone();
            tokio::spawn(async move {
                tokio::task::yield_now().await;
                let next = pair("[2]");
                store.write().await.swap(next);
            })
        };
        writer.await.unwrap();
        for reader in readers {
            let mut swapped = false;
            for seen in reader.await.unwrap() {
                assert!(seen == before || seen == after);
                // Once a reader has seen the new pair it never sees the old one.
                if seen == after {
                    swapped = true;
                } else {
                    assert!(!swapped);
                }
            }
        }
        let guard = store.read().await;
        assert_eq!(guard.read().bundle().revision(), after.0);
        assert_eq!(guard.read().file(), after.1.as_slice());
    });
}
