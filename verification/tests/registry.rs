//! The asset registry: handle identity, name resolution, the deferred
//! build queue and the weak-handle lifecycle.

use doomcore::assets::Asset;
use doomcore::assets::AssetBuilder;
use doomcore::assets::AssetStorage;
use doomcore::assets::DataSource;
use doomcore::error::AssetError;

/// A trivial asset: its intermediate and data are the blob's bytes.
struct Blob;

impl Asset for Blob {
    type Data = Vec<u8>;
    type Intermediate = Vec<u8>;

    fn import<S: DataSource>(name: &str, source: &S) -> Result<Vec<u8>, AssetError> {
        source.load(name)
    }
}

struct MemSource {
    entries: Vec<(String, Vec<u8>)>,
}

impl DataSource for MemSource {
    fn load(&self, path: &str) -> Result<Vec<u8>, AssetError> {
        for (name, data) in &self.entries {
            if name == path {
                return Ok(data.clone());
            }
        }
        Err(AssetError::NotFound)
    }

    fn names(&self) -> Vec<String> {
        self.entries.iter().map(|e| e.0.clone()).collect()
    }
}

/// Builds blobs as-is, counting how many entries it was handed.
struct CountingBuilder {
    calls: usize,
}

impl AssetBuilder<Blob> for CountingBuilder {
    fn inv(&self) -> bool {
        true
    }

    fn build<S: DataSource>(
        &mut self,
        intermediate: Vec<u8>,
        _source: &S,
    ) -> Result<Vec<u8>, AssetError> {
        self.calls += 1;
        Ok(intermediate)
    }
}

#[test]
fn insert_with_name_replaces_in_place() {
    let mut storage: AssetStorage<Blob> = AssetStorage::new();
    let h1 = storage.insert_with_name("foo", vec![1]);
    let h2 = storage.insert_with_name("foo", vec![2]);
    assert_eq!(h1.id(), h2.id());
    assert_eq!(storage.get_by_name("foo"), Some(&vec![2u8]));
    assert_eq!(storage.get(&h1), Some(&vec![2u8]));
}

#[test]
fn load_twice_queues_once() {
    let source = MemSource { entries: vec![("x".to_owned(), vec![9])] };
    let mut storage: AssetStorage<Blob> = AssetStorage::new();
    let h1 = storage.load("x", &source);
    let h2 = storage.load("x", &source);
    assert_eq!(h1.id(), h2.id());
    let mut builder = CountingBuilder { calls: 0 };
    storage.build_waiting(&mut builder, &source);
    assert_eq!(builder.calls, 1);
    assert_eq!(storage.get(&h1), Some(&vec![9u8]));
}

#[test]
fn decode_failure_is_captured_and_isolated() {
    let source = MemSource { entries: vec![("good".to_owned(), vec![1, 2])] };
    let mut storage: AssetStorage<Blob> = AssetStorage::new();
    let bad = storage.load("missing", &source);
    let good = storage.load("good", &source);
    let mut builder = CountingBuilder { calls: 0 };
    storage.build_waiting(&mut builder, &source);
    // The failed entry never reaches the builder and stays unresolved;
    // the rest of the batch still builds.
    assert_eq!(builder.calls, 1);
    assert_eq!(storage.get(&bad), None);
    assert_eq!(storage.get(&good), Some(&vec![1u8, 2u8]));
    // The failed handle remains allocated: its name still resolves.
    assert_eq!(storage.handle_for("missing").unwrap().id(), bad.id());
}

#[test]
fn iteration_follows_insertion_order() {
    let mut storage: AssetStorage<Blob> = AssetStorage::new();
    let h1 = storage.insert(vec![1]);
    let h2 = storage.insert(vec![2]);
    let pairs = storage.iter();
    assert_eq!(pairs.len(), 2);
    assert_eq!(pairs[0].0.id(), h1.id());
    assert_eq!(pairs[0].1, &vec![1u8]);
    assert_eq!(pairs[1].0.id(), h2.id());
    assert_eq!(pairs[1].1, &vec![2u8]);
}

#[test]
fn handle_for_and_get_by_name() {
    let mut storage: AssetStorage<Blob> = AssetStorage::new();
    assert!(storage.handle_for("a").is_none());
    assert!(storage.get_by_name("a").is_none());
    let h = storage.insert_with_name("a", vec![5]);
    assert_eq!(storage.handle_for("a").unwrap().id(), h.id());
    assert_eq!(storage.get_by_name("a"), Some(&vec![5u8]));
}

#[test]
fn weak_handles_die_with_their_strong_handles() {
    let mut storage: AssetStorage<Blob> = AssetStorage::new();
    let handle = storage.insert(vec![1]);
    let weak = handle.downgrade();
    // Both the registry's clone and ours are alive.
    assert_eq!(weak.upgrade().unwrap().id(), handle.id());
    drop(storage);
    assert_eq!(weak.upgrade().unwrap().id(), handle.id());
    drop(handle);
    // No strong handle remains anywhere: the weak handle reports absent.
    assert!(weak.upgrade().is_none());
}

#[test]
fn distinct_names_get_distinct_handles() {
    let source = MemSource {
        entries: vec![("a".to_owned(), vec![1]), ("b".to_owned(), vec![2])],
    };
    let mut storage: AssetStorage<Blob> = AssetStorage::new();
    let ha = storage.load("a", &source);
    let hb = storage.load("b", &source);
    assert_ne!(ha.id(), hb.id());
}
