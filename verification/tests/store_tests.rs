use next_config::config::{AnyConfig, ConfigData};
use next_config::error::Error;
use next_config::value::{Table, Value};
use next_config::{Config, ConfigStore, RegisteredConfig, RegisteredMigration};

#[derive(Debug, Default, Clone, PartialEq)]
struct StoreTestConfig {
    name: String,
    value: u32,
}

impl Config for StoreTestConfig {
    const ID: u64 = 21;
    const VERSION: u32 = 1;
    const FILE_NAME: &'static str = "store_test.toml";

    fn defaults() -> Result<Value, Error> {
        Self::default().encode()
    }

    fn encode(&self) -> Result<Value, Error> {
        if self.name == "cannot be encoded" {
            return Err(Error::Serialization("no encoding".to_string()));
        }
        let mut table = Table::new();
        table.insert("name".to_string(), Value::String(self.name.clone()));
        table.insert("value".to_string(), Value::U32(self.value));
        Ok(Value::Table(table))
    }

    fn decode(record: Value) -> Result<Self, Error> {
        match &record {
            Value::Table(table) => match (table.get("name"), table.get("value")) {
                (Some(Value::String(name)), Some(Value::U32(value))) => {
                    Ok(Self { name: name.clone(), value: *value })
                }
                (Some(Value::String(name)), Some(Value::I64(value))) => {
                    Ok(Self { name: name.clone(), value: *value as u32 })
                }
                _ => Err(Error::Deserialization("missing field".to_string())),
            },
            _ => Err(Error::Deserialization("invalid type".to_string())),
        }
    }
}

#[derive(Debug, Default)]
struct UnregisteredStoreConfig {
    field: String,
}

impl Config for UnregisteredStoreConfig {
    const ID: u64 = 22;
    const VERSION: u32 = 1;
    const FILE_NAME: &'static str = "unregistered_store.toml";

    fn defaults() -> Result<Value, Error> {
        Self::default().encode()
    }

    fn encode(&self) -> Result<Value, Error> {
        let mut table = Table::new();
        table.insert("field".to_string(), Value::String(self.field.clone()));
        Ok(Value::Table(table))
    }

    fn decode(record: Value) -> Result<Self, Error> {
        match &record {
            Value::Table(table) => match table.get("field") {
                Some(Value::String(field)) => Ok(Self { field: field.clone() }),
                _ => Err(Error::Deserialization("missing field".to_string())),
            },
            _ => Err(Error::Deserialization("invalid type".to_string())),
        }
    }
}

/// A schema whose default value does not encode to a map.
#[derive(Debug, Default)]
struct Scalar;

impl Config for Scalar {
    const ID: u64 = 23;
    const VERSION: u32 = 1;
    const FILE_NAME: &'static str = "scalar.toml";

    fn defaults() -> Result<Value, Error> {
        Ok(Value::U32(1))
    }

    fn encode(&self) -> Result<Value, Error> {
        Ok(Value::U32(1))
    }

    fn decode(_record: Value) -> Result<Self, Error> {
        Ok(Scalar)
    }
}

/// A holder of either of two schemas, so that one store can keep both. What
/// it hands out is itself: the caller tells the two schemas apart.
enum Either {
    Test(ConfigData<StoreTestConfig>),
    Other(ConfigData<UnregisteredStoreConfig>),
}

impl AnyConfig for Either {
    type Inner = Either;

    fn file_name(&self) -> String {
        match self {
            Either::Test(holder) => holder.file_name(),
            Either::Other(holder) => holder.file_name(),
        }
    }

    fn is_loaded(&self) -> bool {
        match self {
            Either::Test(holder) => holder.is_loaded(),
            Either::Other(holder) => holder.is_loaded(),
        }
    }

    fn inner(&self) -> &Either {
        self
    }

    fn inner_mut(&mut self) -> &mut Either {
        self
    }

    fn load_from_dir(
        &mut self,
        existing: Option<Value>,
        steps: &Vec<RegisteredMigration>,
    ) -> Result<Option<Value>, Error> {
        match self {
            Either::Test(holder) => holder.load_from_dir(existing, steps),
            Either::Other(holder) => holder.load_from_dir(existing, steps),
        }
    }

    fn save(&self) -> Result<Value, Error> {
        match self {
            Either::Test(holder) => holder.save(),
            Either::Other(holder) => holder.save(),
        }
    }
}

fn store_of_one() -> ConfigStore<ConfigData<StoreTestConfig>> {
    ConfigStore::init("conf".to_string(), vec![RegisteredConfig::<ConfigData<StoreTestConfig>>::new()])
        .expect("Failed to create store")
}

fn store_of_both() -> ConfigStore<Either> {
    ConfigStore::init(
        "conf".to_string(),
        vec![
            RegisteredConfig { id: StoreTestConfig::ID, config: Either::Test(ConfigData::new()) },
            RegisteredConfig {
                id: UnregisteredStoreConfig::ID,
                config: Either::Other(ConfigData::new()),
            },
        ],
    )
    .expect("Failed to create store")
}

fn record(name: &str, value: u32) -> Value {
    let mut table = Table::new();
    table.insert("_version".to_string(), Value::I64(1));
    table.insert("name".to_string(), Value::String(name.to_string()));
    table.insert("value".to_string(), Value::U32(value));
    Value::Table(table)
}

#[test]
fn test_config_store_initialization() {
    let store: Result<ConfigStore<ConfigData<StoreTestConfig>>, Error> =
        ConfigStore::init("conf".to_string(), Vec::new());
    assert!(store.is_ok(), "ConfigStore should initialize successfully");
}

#[test]
fn test_init_collects_registered_configs() {
    let store = store_of_one();

    // Should have at least the StoreTestConfig registered
    assert!(store.is_registered::<StoreTestConfig>(), "Store should contain registered config");
}

#[test]
fn test_get_unregistered_returns_error() {
    let store = store_of_one();

    let result = store.get::<UnregisteredStoreConfig>();
    assert!(matches!(result, Err(Error::UnregisteredConfig(_))));
}

#[test]
fn test_configs_map_uses_type_id_as_key() {
    let store = store_of_one();

    // Verify that the identity is used as key
    assert!(store.is_registered::<StoreTestConfig>());
    assert!(!store.is_registered::<UnregisteredStoreConfig>());
    assert_eq!(store.len(), 1);
}

#[test]
fn the_store_keeps_its_directory() {
    let store = store_of_one();
    assert_eq!(store.conf_dir(), "conf");
}

#[test]
fn a_fresh_store_holds_empty_holders() {
    let store = store_of_one();
    assert!(!store.is_loaded::<StoreTestConfig>());
    assert!(!store.holder_at(0).is_loaded());
    assert_eq!(store.file_name_at(0), "store_test.toml");
}

#[test]
fn registering_twice_keeps_the_first_holder() {
    let mut store = store_of_one();
    store.load::<StoreTestConfig>(Some(record("kept", 3)), &Vec::new()).expect("Failed to load");

    let added = store.register(RegisteredConfig::<ConfigData<StoreTestConfig>>::new());

    assert!(!added);
    assert_eq!(store.len(), 1);
    assert!(store.is_loaded::<StoreTestConfig>());
    assert_eq!(store.get::<StoreTestConfig>().expect("Failed to get").name, "kept");
}

#[test]
fn init_keeps_the_first_of_two_entries_with_one_identity() {
    let mut loaded = ConfigData::<StoreTestConfig>::new();
    loaded.load_from_dir(Some(record("first", 1)), &Vec::new()).expect("Failed to load");
    let store = ConfigStore::init(
        "conf".to_string(),
        vec![
            RegisteredConfig { id: StoreTestConfig::ID, config: loaded },
            RegisteredConfig::<ConfigData<StoreTestConfig>>::new(),
        ],
    )
    .expect("Failed to create store");

    assert_eq!(store.len(), 1);
    assert_eq!(store.get::<StoreTestConfig>().expect("Failed to get").name, "first");
}

#[test]
fn register_adds_a_new_schema_at_the_end() {
    let mut store: ConfigStore<Either> =
        ConfigStore::init("conf".to_string(), Vec::new()).expect("Failed to create store");
    assert!(store
        .register(RegisteredConfig { id: StoreTestConfig::ID, config: Either::Test(ConfigData::new()) }));
    assert!(store.register(RegisteredConfig {
        id: UnregisteredStoreConfig::ID,
        config: Either::Other(ConfigData::new()),
    }));
    assert_eq!(store.len(), 2);
    assert_eq!(store.file_name_at(0), "store_test.toml");
    assert_eq!(store.file_name_at(1), "unregistered_store.toml");
}

#[test]
fn load_returns_nothing_to_write_for_a_file_at_the_current_version() {
    let mut store = store_of_one();
    let to_write =
        store.load::<StoreTestConfig>(Some(record("on disk", 5)), &Vec::new()).expect("Failed to load");
    assert!(to_write.is_none());
    let config = store.get::<StoreTestConfig>().expect("Failed to get");
    assert_eq!(config, &StoreTestConfig { name: "on disk".to_string(), value: 5 });
}

#[test]
fn load_without_a_file_returns_the_stamped_defaults_to_write() {
    let mut store = store_of_one();
    let to_write = store.load::<StoreTestConfig>(None, &Vec::new()).expect("Failed to load");
    match to_write {
        Some(Value::Table(table)) => {
            assert_eq!(table.len(), 3);
            assert!(matches!(table.get("_version"), Some(Value::U32(1))));
            assert!(matches!(table.get("name"), Some(Value::String(s)) if s.is_empty()));
            assert!(matches!(table.get("value"), Some(Value::U32(0))));
        }
        other => panic!("expected a record to write, got {:?}", other),
    }
    assert_eq!(store.get::<StoreTestConfig>().expect("Failed to get"), &StoreTestConfig::default());
}

#[test]
fn a_load_that_cannot_decode_leaves_the_holder_as_it_was() {
    let mut store = store_of_one();
    store.load::<StoreTestConfig>(Some(record("good", 1)), &Vec::new()).expect("Failed to load");

    let mut broken = Table::new();
    broken.insert("name".to_string(), Value::Bool(true));
    let result = store.load::<StoreTestConfig>(Some(Value::Table(broken)), &Vec::new());

    assert!(matches!(result, Err(Error::Deserialization(_))));
    assert_eq!(store.get::<StoreTestConfig>().expect("Failed to get").name, "good");
}

#[test]
fn defaults_that_are_no_map_are_a_decode_error() {
    let mut store: ConfigStore<ConfigData<Scalar>> =
        ConfigStore::init("conf".to_string(), vec![RegisteredConfig::<ConfigData<Scalar>>::new()])
            .expect("Failed to create store");
    match store.load::<Scalar>(None, &Vec::new()) {
        Err(Error::Deserialization(message)) => {
            assert_eq!(message, "Expected config to serialize to a map")
        }
        other => panic!("expected a decode error, got {:?}", other),
    }
    assert!(!store.is_loaded::<Scalar>());
}

#[test]
fn a_value_that_does_not_encode_to_a_map_cannot_be_saved() {
    let mut store: ConfigStore<ConfigData<Scalar>> =
        ConfigStore::init("conf".to_string(), vec![RegisteredConfig::<ConfigData<Scalar>>::new()])
            .expect("Failed to create store");
    store.load::<Scalar>(Some(Value::Table(Table::new())), &Vec::new()).expect("Failed to load");
    match store.update::<Scalar, _>(|_| Ok(())) {
        Err(Error::Deserialization(message)) => {
            assert_eq!(message, "Expected config to serialize to a map")
        }
        other => panic!("expected a decode error, got {:?}", other),
    }
}

#[test]
fn update_returns_the_changed_value_stamped_for_writing() {
    let mut store = store_of_one();
    store.load::<StoreTestConfig>(Some(record("before", 1)), &Vec::new()).expect("Failed to load");

    let to_write = store
        .update::<StoreTestConfig, _>(|cfg| {
            cfg.name = "after".to_string();
            cfg.value = 2;
            Ok(())
        })
        .expect("Failed to update");

    match to_write {
        Value::Table(table) => {
            assert_eq!(table.len(), 3);
            assert!(matches!(table.get("_version"), Some(Value::U32(1))));
            assert!(matches!(table.get("name"), Some(Value::String(s)) if s == "after"));
            assert!(matches!(table.get("value"), Some(Value::U32(2))));
        }
        other => panic!("expected a map, got {:?}", other),
    }
}

#[test]
fn an_update_that_cannot_be_encoded_keeps_the_change_in_memory() {
    let mut store = store_of_one();
    store.load::<StoreTestConfig>(Some(record("before", 1)), &Vec::new()).expect("Failed to load");

    let result = store.update::<StoreTestConfig, _>(|cfg| {
        cfg.name = "cannot be encoded".to_string();
        Ok(())
    });

    assert!(matches!(result, Err(Error::Serialization(_))));
    assert_eq!(store.get::<StoreTestConfig>().expect("Failed to get").name, "cannot be encoded");
}

#[test]
fn load_all_loads_every_schema_in_the_order_of_registration() {
    let mut store = store_of_both();
    let mut other = Table::new();
    other.insert("field".to_string(), Value::String("x".to_string()));

    let out = store.load_all(&vec![None, Some(Value::Table(other))], &Vec::new());

    assert!(out.failure.is_none());
    assert_eq!(out.written.len(), 2);
    assert!(matches!(&out.written[0], Some(Value::Table(t)) if t.contains_key("name")));
    assert!(out.written[1].is_none());
    match (store.holder_at(0), store.holder_at(1)) {
        (Either::Test(first), Either::Other(second)) => {
            assert_eq!(first.inner(), &StoreTestConfig::default());
            assert_eq!(second.inner().field, "x");
        }
        _ => panic!("the holders changed places"),
    }
}

#[test]
fn load_all_stops_at_the_first_failure_and_rolls_nothing_back() {
    let mut store: ConfigStore<Either> = ConfigStore::init(
        "conf".to_string(),
        vec![
            RegisteredConfig { id: 1, config: Either::Test(ConfigData::new()) },
            RegisteredConfig { id: 2, config: Either::Other(ConfigData::new()) },
            RegisteredConfig { id: 3, config: Either::Test(ConfigData::new()) },
        ],
    )
    .expect("Failed to create store");

    let out = store.load_all(&vec![None, Some(Value::Table(Table::new())), None], &Vec::new());

    assert!(matches!(out.failure, Some(Error::Deserialization(_))));
    assert_eq!(out.written.len(), 1);
    assert!(matches!(&out.written[0], Some(Value::Table(_))));
    match (store.holder_at(0), store.holder_at(1), store.holder_at(2)) {
        (Either::Test(first), Either::Other(second), Either::Test(third)) => {
            assert!(first.is_loaded());
            assert!(!second.is_loaded());
            assert!(!third.is_loaded());
        }
        _ => panic!("the holders changed places"),
    }
}

#[test]
fn load_all_takes_a_schema_without_an_entry_as_one_without_a_file() {
    let mut store = store_of_both();
    let out = store.load_all(&Vec::new(), &Vec::new());
    assert!(out.failure.is_none());
    assert_eq!(out.written.len(), 2);
    assert!(out.written[0].is_some());
    assert!(out.written[1].is_some());
}

#[test]
fn one_store_keeps_schemas_of_different_types_apart() {
    let mut store = store_of_both();
    let mut other = Table::new();
    other.insert("field".to_string(), Value::String("x".to_string()));
    store.load::<StoreTestConfig>(Some(record("first", 1)), &Vec::new()).expect("Failed to load");
    store
        .load::<UnregisteredStoreConfig>(Some(Value::Table(other)), &Vec::new())
        .expect("Failed to load");

    match store.get::<StoreTestConfig>().expect("Failed to get") {
        Either::Test(holder) => assert_eq!(holder.inner().name, "first"),
        Either::Other(_) => panic!("the wrong holder"),
    }
    match store.get::<UnregisteredStoreConfig>().expect("Failed to get") {
        Either::Other(holder) => assert_eq!(holder.inner().field, "x"),
        Either::Test(_) => panic!("the wrong holder"),
    }

    let to_write = store
        .update::<UnregisteredStoreConfig, _>(|either| {
            if let Either::Other(holder) = either {
                holder.inner_mut().field = "y".to_string();
            }
            Ok(())
        })
        .expect("Failed to update");

    assert!(matches!(&to_write, Value::Table(t) if t.get("field") == Some(&Value::String("y".to_string()))));
    match store.get::<StoreTestConfig>().expect("Failed to get") {
        Either::Test(holder) => assert_eq!(holder.inner().name, "first"),
        Either::Other(_) => panic!("the wrong holder"),
    }
}
