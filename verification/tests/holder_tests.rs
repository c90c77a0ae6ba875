use next_config::config::{frame_record, AnyConfig, ConfigData};
use next_config::error::Error;
use next_config::value::{Table, Value};
use next_config::{Config, Migration, RegisteredMigration};

#[derive(Debug, Clone, PartialEq)]
struct TestConfig {
    name: String,
    count: u32,
    enabled: bool,
}

impl Default for TestConfig {
    fn default() -> Self {
        Self { name: "default_name".to_string(), count: 42, enabled: true }
    }
}

impl Config for TestConfig {
    const ID: u64 = 31;
    const VERSION: u32 = 1;
    const FILE_NAME: &'static str = "test_config.toml";

    fn defaults() -> Result<Value, Error> {
        Self::default().encode()
    }

    fn encode(&self) -> Result<Value, Error> {
        Ok(record(vec![
            ("name", Value::String(self.name.clone())),
            ("count", Value::U32(self.count)),
            ("enabled", Value::Bool(self.enabled)),
        ]))
    }

    fn decode(record: Value) -> Result<Self, Error> {
        match &record {
            Value::Table(table) => match (table.get("name"), table.get("count"), table.get("enabled")) {
                (Some(Value::String(name)), Some(Value::U32(count)), Some(Value::Bool(enabled))) => {
                    Ok(Self { name: name.clone(), count: *count, enabled: *enabled })
                }
                _ => Err(Error::Deserialization("missing field".to_string())),
            },
            _ => Err(Error::Deserialization("invalid type".to_string())),
        }
    }
}

/// The next shape of `TestConfig`, with one field more.
#[derive(Debug, Clone, PartialEq)]
struct TestConfigV2 {
    name: String,
    count: u32,
    enabled: bool,
    limit: u32,
}

impl Config for TestConfigV2 {
    const ID: u64 = 32;
    const VERSION: u32 = 2;
    const FILE_NAME: &'static str = "test_config.toml";

    fn defaults() -> Result<Value, Error> {
        Ok(record(vec![
            ("name", Value::String("default_name".to_string())),
            ("count", Value::U32(42)),
            ("enabled", Value::Bool(true)),
            ("limit", Value::U32(10)),
        ]))
    }

    fn encode(&self) -> Result<Value, Error> {
        Ok(record(vec![
            ("name", Value::String(self.name.clone())),
            ("count", Value::U32(self.count)),
            ("enabled", Value::Bool(self.enabled)),
            ("limit", Value::U32(self.limit)),
        ]))
    }

    fn decode(record: Value) -> Result<Self, Error> {
        match &record {
            Value::Table(table) => match (
                table.get("name"),
                table.get("count"),
                table.get("enabled"),
                table.get("limit"),
            ) {
                (
                    Some(Value::String(name)),
                    Some(Value::U32(count)),
                    Some(Value::Bool(enabled)),
                    Some(Value::U32(limit)),
                ) => Ok(Self { name: name.clone(), count: *count, enabled: *enabled, limit: *limit }),
                _ => Err(Error::Deserialization("missing field".to_string())),
            },
            _ => Err(Error::Deserialization("invalid type".to_string())),
        }
    }
}

/// A schema whose default value cannot be encoded.
#[derive(Debug)]
struct NoDefaults;

impl Config for NoDefaults {
    const ID: u64 = 33;
    const VERSION: u32 = 2;
    const FILE_NAME: &'static str = "no_defaults.toml";

    fn defaults() -> Result<Value, Error> {
        Err(Error::Serialization("the default has no record".to_string()))
    }

    fn encode(&self) -> Result<Value, Error> {
        Ok(record(vec![]))
    }

    fn decode(_record: Value) -> Result<Self, Error> {
        Ok(NoDefaults)
    }
}

struct DoubleTheLimit;

impl Migration for DoubleTheLimit {
    fn from(&self) -> u32 {
        1
    }

    fn migrate(&self, value: &mut Value) -> Result<(), Error> {
        if let Value::Table(map) = value {
            if let Some(Value::U32(limit)) = map.get("limit") {
                let doubled = *limit * 2;
                map.insert("limit".to_string(), Value::U32(doubled));
            }
        }
        Ok(())
    }
}

fn record(entries: Vec<(&str, Value)>) -> Value {
    let mut table = Table::new();
    for (key, value) in entries {
        table.insert(key.to_string(), value);
    }
    Value::Table(table)
}

fn field<'a>(record: &'a Value, key: &str) -> Option<&'a Value> {
    match record {
        Value::Table(table) => table.get(key),
        _ => panic!("Expected Value::Table"),
    }
}

#[test]
fn test_extract_version() {
    let value = record(vec![("_version", Value::U32(5))]);

    assert_eq!(ConfigData::<TestConfig>::extract_version(&value), 5);
}

#[test]
fn test_extract_version_missing_defaults_to_1() {
    let value = record(vec![("name", Value::String("test".to_string()))]);

    assert_eq!(ConfigData::<TestConfig>::extract_version(&value), 1);
}

#[test]
fn test_merge_defaults_adds_missing_fields() {
    let mut value = record(vec![("name", Value::String("custom_name".to_string()))]);

    ConfigData::<TestConfig>::merge_defaults(&mut value).unwrap();

    // The field of the record is preserved
    assert_eq!(field(&value, "name"), Some(&Value::String("custom_name".to_string())));
    // Default fields added
    assert_eq!(field(&value, "count"), Some(&Value::U32(42)));
    assert_eq!(field(&value, "enabled"), Some(&Value::Bool(true)));
}

#[test]
fn test_merge_defaults_preserves_existing_fields() {
    let mut value = record(vec![
        ("name", Value::String("custom".to_string())),
        ("count", Value::U32(999)),
        ("enabled", Value::Bool(false)),
    ]);

    ConfigData::<TestConfig>::merge_defaults(&mut value).unwrap();

    // All fields should retain the values they had
    assert_eq!(field(&value, "name"), Some(&Value::String("custom".to_string())));
    assert_eq!(field(&value, "count"), Some(&Value::U32(999)));
    assert_eq!(field(&value, "enabled"), Some(&Value::Bool(false)));
}

#[test]
fn merge_defaults_fails_where_the_default_cannot_be_encoded() {
    let mut value = record(vec![("name", Value::String("x".to_string()))]);
    let result = ConfigData::<NoDefaults>::merge_defaults(&mut value);
    assert_eq!(result, Err(Error::Serialization("the default has no record".to_string())));
    assert_eq!(value, record(vec![("name", Value::String("x".to_string()))]));
}

#[test]
fn the_holder_migrates_with_the_defaults_and_steps_of_its_schema() {
    let holder = ConfigData::<TestConfigV2>::new();
    let steps = vec![
        RegisteredMigration::new::<TestConfig>(DoubleTheLimit),
        RegisteredMigration::new::<TestConfigV2>(DoubleTheLimit),
    ];
    assert_eq!(steps[1].id, 32);
    assert_eq!(steps[1].from, 1);
    let mut value = record(vec![("name", Value::String("x".to_string()))]);

    let changed = holder.migrate(&mut value, &steps).expect("migration works");

    assert!(changed);
    assert_eq!(
        value,
        record(vec![
            ("_version", Value::U32(2)),
            ("name", Value::String("x".to_string())),
            ("count", Value::U32(42)),
            ("enabled", Value::Bool(true)),
            ("limit", Value::U32(20)),
        ])
    );
}

#[test]
fn a_record_at_the_schemas_version_needs_no_defaults() {
    let holder = ConfigData::<NoDefaults>::new();
    let steps: Vec<RegisteredMigration> = Vec::new();

    let mut current = record(vec![("_version", Value::I64(2))]);
    assert_eq!(holder.migrate(&mut current, &steps), Ok(false));
    assert_eq!(current, record(vec![("_version", Value::U32(2))]));

    let mut old = record(vec![("_version", Value::I64(1))]);
    assert_eq!(
        holder.migrate(&mut old, &steps),
        Err(Error::Serialization("the default has no record".to_string()))
    );
    assert_eq!(old, record(vec![("_version", Value::I64(1))]));
}

#[test]
fn a_holder_is_empty_until_it_is_loaded_and_loaded_from_then_on() {
    let mut holder = ConfigData::<TestConfig>::default();
    let steps: Vec<RegisteredMigration> = Vec::new();
    assert!(!holder.is_loaded());

    let failed = holder.load_from_dir(Some(Value::Unit), &steps);
    assert!(matches!(failed, Err(Error::Deserialization(_))));
    assert!(!holder.is_loaded());

    let to_write = holder.load_from_dir(None, &steps).expect("Failed to load");
    assert!(holder.is_loaded());
    assert_eq!(holder.inner(), &TestConfig::default());
    assert_eq!(
        to_write,
        Some(record(vec![
            ("_version", Value::U32(1)),
            ("name", Value::String("default_name".to_string())),
            ("count", Value::U32(42)),
            ("enabled", Value::Bool(true)),
        ]))
    );

    let failed = holder.load_from_dir(Some(record(vec![("name", Value::Bool(false))])), &steps);
    assert!(matches!(failed, Err(Error::Deserialization(_))));
    assert!(holder.is_loaded());
    assert_eq!(holder.inner(), &TestConfig::default());

    holder.inner_mut().count = 7;
    assert_eq!(holder.inner().count, 7);
    assert_eq!(
        holder.save(),
        Ok(record(vec![
            ("_version", Value::U32(1)),
            ("name", Value::String("default_name".to_string())),
            ("count", Value::U32(7)),
            ("enabled", Value::Bool(true)),
        ]))
    );
}

#[test]
fn a_load_with_steps_of_one_type_migrates_and_hands_back_the_new_record() {
    let mut holder = ConfigData::<TestConfigV2>::new();
    let steps = vec![RegisteredMigration::new::<TestConfigV2>(DoubleTheLimit)];
    let on_disk = record(vec![
        ("name", Value::String("x".to_string())),
        ("count", Value::U32(1)),
        ("enabled", Value::Bool(false)),
        ("limit", Value::U32(4)),
    ]);

    let to_write = holder.load_with(Some(on_disk), &steps).expect("Failed to load");

    let expected = TestConfigV2 { name: "x".to_string(), count: 1, enabled: false, limit: 8 };
    assert_eq!(holder.inner(), &expected);
    assert_eq!(
        to_write,
        Some(record(vec![
            ("_version", Value::U32(2)),
            ("name", Value::String("x".to_string())),
            ("count", Value::U32(1)),
            ("enabled", Value::Bool(false)),
            ("limit", Value::U32(8)),
        ]))
    );
}

#[test]
fn framing_stamps_a_map_and_refuses_anything_else() {
    assert_eq!(
        frame_record(record(vec![("name", Value::Unit)]), 3),
        Ok(record(vec![("name", Value::Unit), ("_version", Value::U32(3))]))
    );
    assert_eq!(
        frame_record(Value::List(Vec::new()), 3),
        Err(Error::Deserialization("Expected config to serialize to a map".to_string()))
    );
}
