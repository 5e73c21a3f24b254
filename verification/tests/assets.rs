use lunar_ecs::asset_managment::{
    first_failure, set_id_once, Asset, AssetCall, AssetStore, BindgroupState, Error, InitFailure,
};

fn all_done(calls: &[AssetCall<bool>]) -> bool {
    calls.iter().all(|c| *c.outcome())
}

struct Texture {
    id: Option<u128>,
    initialized: bool,
    fail: bool,
}

impl Asset for Texture {
    fn get_id(&self) -> u128 {
        self.id.unwrap()
    }

    fn initialize(&mut self) -> Result<(), String> {
        if self.fail {
            return Err("broken texture".to_string());
        }
        self.initialized = true;
        Ok(())
    }

    fn dispose(&mut self) {
        self.initialized = false;
    }

    fn set_id(&mut self, id: u128) -> Result<(), Error> {
        if self.id.is_some() {
            Err(Error::IdAlreadySet)
        } else {
            self.id = Some(id);
            Ok(())
        }
    }
}

struct Mesh {
    id: Option<u128>,
}

impl Asset for Mesh {
    fn get_id(&self) -> u128 {
        self.id.unwrap()
    }

    fn initialize(&mut self) -> Result<(), String> {
        Ok(())
    }

    fn dispose(&mut self) {}

    fn set_id(&mut self, id: u128) -> Result<(), Error> {
        if self.id.is_some() {
            Err(Error::IdAlreadySet)
        } else {
            self.id = Some(id);
            Ok(())
        }
    }
}

fn texture() -> Texture {
    Texture { id: None, initialized: false, fail: false }
}

#[test]
fn register_then_get_by_id() {
    let mut store = AssetStore::new();
    let id = store.register(texture()).unwrap();
    let r = store.get_by_id::<Texture>(id).unwrap();
    assert_eq!(r.borrow().unwrap().get_id(), id);
    assert!(!r.borrow().unwrap().initialized);
    assert!(matches!(store.get_by_id::<Texture>(id.wrapping_add(1)), Err(Error::DoesNotExist)));
}

#[test]
fn register_refuses_an_asset_with_an_id() {
    let mut store = AssetStore::new();
    let t = Texture { id: Some(5), initialized: false, fail: false };
    assert!(matches!(store.register(t), Err(Error::IdAlreadySet)));
    assert!(matches!(store.get_by_type::<Texture>(), Err(Error::DoesNotExist)));
}

#[test]
fn get_by_type_finds_the_first_of_the_type() {
    let mut store = AssetStore::new();
    assert!(matches!(store.get_by_type::<Mesh>(), Err(Error::DoesNotExist)));
    let mesh = store.register(Mesh { id: None }).unwrap();
    let first = store.register(texture()).unwrap();
    let _second = store.register(texture()).unwrap();
    assert_eq!(store.get_by_type::<Texture>().unwrap().borrow().unwrap().get_id(), first);
    assert_eq!(store.get_by_type::<Mesh>().unwrap().borrow().unwrap().get_id(), mesh);
}

#[test]
fn initialize_and_dispose() {
    let mut store = AssetStore::new();
    let id = store.register(texture()).unwrap();
    assert!(first_failure(&store.intialize_all()).is_ok());
    assert!(store.get_by_id::<Texture>(id).unwrap().borrow().unwrap().initialized);
    assert!(*store.dispose_by_id(id).unwrap().outcome());
    assert!(!store.get_by_id::<Texture>(id).unwrap().borrow().unwrap().initialized);
    assert_eq!(store.dispose_by_id(id.wrapping_add(1)).err(), Some(Error::DoesNotExist));
    assert!(first_failure(&store.intialize_all()).is_ok());
    assert_eq!(store.dispose_all().len(), 1);
    assert!(!store.get_by_id::<Texture>(id).unwrap().borrow().unwrap().initialized);
    store.get_by_id::<Texture>(id).unwrap().borrow_mut().unwrap().initialized = true;
    assert!(store.get_by_id::<Texture>(id).unwrap().borrow().unwrap().initialized);
}

#[test]
fn initialize_all_reports_the_first_failure_and_initializes_the_rest() {
    let mut store = AssetStore::new();
    store.register(Texture { id: None, initialized: false, fail: true }).unwrap();
    let good = store.register(texture()).unwrap();
    let calls = store.intialize_all();
    assert_eq!(calls.len(), 2);
    assert!(matches!(first_failure(&calls), Err(InitFailure::Failed(m)) if m == "broken texture"));
    assert!(store.get_by_id::<Texture>(good).unwrap().borrow().unwrap().initialized);
}

#[test]
fn first_failure_picks_the_earliest_error() {
    let mut store = AssetStore::new();
    let good = store.register(texture()).unwrap();
    store.register(Texture { id: None, initialized: false, fail: true }).unwrap();
    let r = store.get_by_id::<Texture>(good).unwrap();
    let held = r.borrow().unwrap();
    assert!(matches!(first_failure(&store.intialize_all()), Err(InitFailure::Locked)));
    drop(held);
    assert!(matches!(first_failure(&store.intialize_all()), Err(InitFailure::Failed(_))));
    assert!(first_failure(&AssetStore::new().intialize_all()).is_ok());
}

#[test]
fn bindgroup_state_is_copy() {
    let s = BindgroupState::Uninitialized;
    let t = s;
    assert_eq!(s, t);
    assert_ne!(BindgroupState::Initialized, t);
}

#[test]
fn set_id_once_sets_only_the_first_time() {
    let mut slot: Option<u128> = None;
    assert_eq!(set_id_once(&mut slot, 5), Ok(()));
    assert_eq!(slot, Some(5));
    assert_eq!(set_id_once(&mut slot, 6), Err(Error::IdAlreadySet));
    assert_eq!(slot, Some(5));
}

#[test]
fn borrowing_as_another_type_is_refused() {
    let mut store = AssetStore::new();
    let id = store.register(texture()).unwrap();
    assert!(store.get_by_id::<Mesh>(id).unwrap().borrow().is_none());
    let r = store.get_by_id::<Texture>(id).unwrap();
    let held = r.borrow_mut().unwrap();
    assert!(r.borrow().is_none());
    assert!(!*store.dispose_by_id(id).unwrap().outcome());
    assert!(!all_done(&store.dispose_all()));
    drop(held);
    assert!(*store.dispose_by_id(id).unwrap().outcome());
    assert!(all_done(&store.dispose_all()));
}

#[test]
fn disposing_an_empty_store_succeeds() {
    let store = AssetStore::new();
    assert!(store.dispose_all().is_empty());
}

#[test]
fn registered_ids_are_found_and_others_are_not() {
    let mut store = AssetStore::new();
    let a = store.register(texture()).unwrap();
    let b = store.register(texture()).unwrap();
    assert_eq!(store.get_by_id::<Texture>(a).unwrap().borrow().unwrap().get_id(), a);
    assert_eq!(store.get_by_id::<Texture>(b).unwrap().borrow().unwrap().get_id(), b);
    let other = a.wrapping_add(1).max(b.wrapping_add(1));
    if other != a && other != b {
        assert_eq!(store.get_by_id::<Texture>(other).err(), Some(Error::DoesNotExist));
    }
}

#[test]
fn store_registered_follows_the_outcome() {
    let mut store = AssetStore::new();
    assert_eq!(store.store_registered(texture(), 7, Err(Error::IdAlreadySet)), Err(Error::IdAlreadySet));
    assert!(store.get_by_id::<Texture>(7).is_err());
    assert_eq!(store.store_registered(texture(), 7, Ok(())), Ok(7));
    assert!(store.get_by_id::<Texture>(7).is_ok());
}
