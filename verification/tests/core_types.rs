use cathedral::core_types::capability::{Capability, CapabilitySet};
use cathedral::core_types::error::CoreError;
use cathedral::core_types::hash;
use cathedral::core_types::hash::{AddressAlgorithm, ContentAddress, HashChain, HashError};
use cathedral::core_types::capability::matches_path;
use cathedral::core_types::time::{Duration, LogicalTime, Timestamp};
use cathedral::core_types::version::{Version, VersionError};
use cathedral::core_types::id::{ClusterId, DecisionId, EventId, NodeId, RunId, SnapshotId, TaskId, WorkerId};

#[test]
fn test_capability_set_grant() {
    let mut caps = CapabilitySet::new();
    assert!(caps.is_empty());

    caps.grant(Capability::ClockRead);
    assert_eq!(caps.len(), 1);
    assert!(caps.has(&Capability::ClockRead));
    assert!(caps.can_read_clock());
}

#[test]
fn test_net_read_domain_matching() {
    let mut caps = CapabilitySet::new();
    caps.grant(Capability::NetRead {
        allowlist: vec!["*.example.com".to_string(), "api.service.com".to_string()],
    });

    assert!(caps.can_read_net("example.com"));
    assert!(caps.can_read_net("sub.example.com"));
    assert!(caps.can_read_net("api.service.com"));
    assert!(!caps.can_read_net("other.com"));
}

#[test]
fn test_net_wildcard() {
    let mut caps = CapabilitySet::new();
    caps.grant(Capability::NetRead { allowlist: vec!["*".to_string()] });

    assert!(caps.can_read_net("any.domain.com"));
    assert!(caps.can_read_net("example.com"));
}

#[test]
fn test_fs_path_matching() {
    let mut caps = CapabilitySet::new();
    caps.grant(Capability::FsWrite {
        prefixes: vec!["./outputs".to_string(), "./cache".to_string()],
    });

    assert!(caps.can_write_fs("./outputs/data.json"));
    assert!(caps.can_write_fs("./cache/tmp"));
    assert!(caps.can_write_fs("./outputs"));
    assert!(!caps.can_write_fs("./inputs"));
}

#[test]
fn test_fs_current_directory() {
    let mut caps = CapabilitySet::new();
    caps.grant(Capability::FsRead { prefixes: vec![".".to_string()] });

    assert!(caps.can_read_fs("./file.txt"));
    assert!(caps.can_read_fs("file.txt"));
    assert!(caps.can_read_fs("./sub/dir/file.txt"));
}

#[test]
fn test_db_table_access() {
    let mut caps = CapabilitySet::new();
    caps.grant(Capability::DbRead { tables: vec!["users".to_string(), "posts".to_string()] });

    assert!(caps.can_read_db("users"));
    assert!(caps.can_read_db("posts"));
    assert!(!caps.can_read_db("admin"));
}

#[test]
fn test_env_var_access() {
    let mut caps = CapabilitySet::new();
    caps.grant(Capability::EnvRead { vars: vec!["PATH".to_string(), "HOME".to_string()] });

    assert!(caps.can_read_env("PATH"));
    assert!(caps.can_read_env("HOME"));
    assert!(!caps.can_read_env("SECRET"));
}

#[test]
fn test_capability_equality() {
    let cap1 = Capability::ClockRead;
    let cap2 = Capability::ClockRead;
    assert!(cap1.same_as(&cap2));

    let cap3 = Capability::NetRead { allowlist: vec!["*".to_string()] };
    let cap4 = Capability::NetRead { allowlist: vec!["example.com".to_string()] };
    assert!(!cap3.same_as(&cap4));
    assert!(cap3.matches_kind(&cap4));
}

#[test]
fn test_wasm_exec_limits() {
    let mut caps = CapabilitySet::new();
    caps.grant(Capability::WasmExec { fuel: 1_000_000, memory: 64 * 1024 * 1024 });

    assert!(caps.has(&Capability::WasmExec { fuel: 1_000_000, memory: 64 * 1024 * 1024 }));
}

#[test]
fn test_capability_ord() {
    let mut set = CapabilitySet::new();
    set.grant(Capability::ClockRead);
    set.grant(Capability::NetRead { allowlist: vec!["*".to_string()] });
    set.grant(Capability::FsWrite { prefixes: vec![".".to_string()] });

    assert_eq!(set.len(), 3);
}

#[test]
fn capability_grant_twice_keeps_one() {
    let mut set = CapabilitySet::new();
    set.grant(Capability::DbRead { tables: vec!["a".to_string()] });
    set.allow(Capability::DbRead { tables: vec!["a".to_string()] });
    assert_eq!(set.len(), 1);
    set.grant(Capability::DbRead { tables: vec!["b".to_string()] });
    assert_eq!(set.len(), 2);
}

#[test]
fn capability_allows_wildcards() {
    let mut set = CapabilitySet::new();
    set.grant(Capability::FsRead { prefixes: vec!["*".to_string()] });
    assert!(set.allows(&Capability::FsRead { prefixes: vec!["/etc".to_string()] }));
    assert!(!set.allows(&Capability::FsWrite { prefixes: vec!["/etc".to_string()] }));
    set.grant(Capability::NetWrite { allowlist: vec!["a.com".to_string()] });
    assert!(set.allows(&Capability::NetWrite { allowlist: vec!["a.com".to_string()] }));
    assert!(!set.allows(&Capability::NetWrite { allowlist: vec!["b.com".to_string()] }));
}

#[test]
fn capability_display_and_kind() {
    let c = Capability::NetRead { allowlist: vec!["a.com".to_string(), "b.com".to_string()] };
    assert_eq!(c.to_string(), "NetRead(a.com,b.com)");
    assert_eq!(c.kind_name(), "NetRead");
    let w = Capability::WasmExec { fuel: 10, memory: 20 };
    assert_eq!(w.to_string(), "WasmExec(fuel:10,mem:20)");
    let e = Capability::Exec { cpu_limit: "1000".to_string(), mem_limit: "1GB".to_string() };
    assert_eq!(e.to_string(), "Exec(cpu:1000,mem:1GB)");
    assert_eq!(Capability::ClockRead.to_string(), "ClockRead");
}

#[test]
fn path_matching_edges() {
    assert!(matches_path("./outputs/", "./outputs"));
    assert!(matches_path("./outputs", "./outputs/"));
    assert!(!matches_path("./out", "./outputs"));
    assert!(matches_path("./", "anything"));
}

#[test]
fn test_error_display() {
    let err = CoreError::InvalidEncoding;
    assert_eq!(err.to_string(), "Invalid encoding");

    let err = CoreError::NotFound { kind: "Event".to_string(), id: "evt_123".to_string() };
    assert_eq!(err.to_string(), "Event not found: evt_123");
}

#[test]
fn test_hash_mismatch_error() {
    let err = CoreError::HashMismatch { expected: "abc123".to_string(), actual: "def456".to_string() };
    let s = err.to_string();
    assert!(s.contains("abc123"));
    assert!(s.contains("def456"));
}

#[test]
fn test_broken_chain_error() {
    let err = CoreError::BrokenChain { position: 42 };
    let s = err.to_string();
    assert!(s.contains("42"));
}

#[test]
fn test_error_equality() {
    let err1 = CoreError::InvalidEncoding;
    let err2 = CoreError::InvalidEncoding;
    assert_eq!(err1, err2);

    let err3 = CoreError::Cancelled;
    assert_ne!(err1, err3);
}

#[test]
fn core_error_messages() {
    let e = CoreError::CapacityExceeded { resource: "mem".to_string(), limit: 7 };
    assert_eq!(e.to_string(), "Capacity exceeded for mem: 7");
    let e = CoreError::Validation { field: "f".to_string(), reason: "r".to_string() };
    assert_eq!(e.to_string(), "Validation failed for f: r");
    assert_eq!(CoreError::Cancelled.to_string(), "Operation cancelled");
}

#[test]
fn test_logical_time() {
    let t = LogicalTime::zero();
    assert_eq!(t.as_u64(), 0);

    let t2 = t.incremented();
    assert_eq!(t2.as_u64(), 1);
    assert_eq!(t.as_u64(), 0);

    let mut t3 = t;
    t3.increment();
    assert_eq!(t3.as_u64(), 1);
}

#[test]
fn test_logical_time_ord() {
    let t1 = LogicalTime::from_raw(1);
    let t2 = LogicalTime::from_raw(2);
    let t3 = LogicalTime::from_raw(2);

    assert!(t1 < t2);
    assert_eq!(t2, t3);
}

#[test]
fn test_duration() {
    let d = Duration::from_secs(60);
    assert_eq!(d.as_secs(), 60);
    assert_eq!(d.as_millis(), 60_000);

    let d2 = Duration::from_millis(1500);
    assert_eq!(d2.as_secs(), 1);
    assert_eq!(d2.as_millis(), 1500);
}

#[test]
fn test_timestamp_arithmetic() {
    let t1 = Timestamp::new(100, 500_000_000);
    let t2 = Timestamp::new(102, 200_000_000);

    let duration = t2.duration_since(&t1);
    assert_eq!(duration.seconds, 1);
    assert_eq!(duration.nanos, 700_000_000);

    let t3 = t1.add(&duration);
    assert_eq!(t3.seconds, 102);
    assert_eq!(t3.nanos, 200_000_000);
}

#[test]
fn test_timestamp_nano_overflow() {
    let t = Timestamp::new(100, 900_000_000);
    let d = Duration::new(0, 200_000_000);

    let t2 = t.add(&d);
    assert_eq!(t2.seconds, 101);
    assert_eq!(t2.nanos, 100_000_000);
}

#[test]
fn test_duration_saturating_add() {
    let d1 = Duration::new(u64::MAX, 500_000_000);
    let d2 = Duration::new(1, 600_000_000);

    let sum = d1.saturating_add(&d2);
    assert_eq!(sum.seconds, u64::MAX);
    assert_eq!(sum.nanos, 100_000_000);
}

#[test]
fn time_rendering() {
    assert_eq!(LogicalTime::from_raw(7).to_string(), "T7");
    assert_eq!(Timestamp::new(3, 5).to_string(), "3.000000005");
    assert_eq!(Duration::zero().to_string(), "0s");
    assert_eq!(Duration::new(0, 12).to_string(), "12ns");
    assert_eq!(Duration::new(4, 0).to_string(), "4s");
    assert_eq!(Duration::new(4, 250_000_000).to_string(), "4.250000000s");
    assert_eq!(Duration::new(2, 3_000_000).as_micros(), 2_003_000);
    assert_eq!(Duration::new(2, 3).as_nanos(), 2_000_000_003);
    assert_eq!(Timestamp::new(1, 999_999_999).as_millis(), 1999);
    assert_eq!(LogicalTime::from_raw(u64::MAX).saturating_add(3).as_u64(), u64::MAX);
}

#[test]
fn duration_since_clamps_at_zero() {
    let early = Timestamp::new(10, 0);
    let late = Timestamp::new(5, 0);
    let d = late.duration_since(&early);
    assert_eq!(d.seconds, 0);
    assert_eq!(d.nanos, 0);
}

#[test]
fn test_version_new() {
    let v = Version::new(1, 2, 3);
    assert_eq!(v.major, 1);
    assert_eq!(v.minor, 2);
    assert_eq!(v.patch, 3);
}

#[test]
fn test_version_parse() {
    let v = Version::parse("1.2.3").unwrap();
    assert_eq!(v.major, 1);
    assert_eq!(v.minor, 2);
    assert_eq!(v.patch, 3);
}

#[test]
fn test_version_display() {
    let v = Version::new(1, 2, 3);
    assert_eq!(v.to_string(), "1.2.3");
}

#[test]
fn test_version_ord() {
    let v1 = Version::new(1, 2, 3);
    let v2 = Version::new(1, 2, 4);
    let v3 = Version::new(2, 0, 0);

    assert!(v1 < v2);
    assert!(v2 < v3);
    assert_eq!(v1, Version::new(1, 2, 3));
}

#[test]
fn test_version_parse_error() {
    let result = Version::parse("1.2");
    assert!(matches!(result, Err(VersionError::InvalidFormat(_))));

    let result = Version::parse("a.b.c");
    assert!(matches!(result, Err(VersionError::InvalidComponent(_))));
}

#[test]
fn test_version_default() {
    let v = Version::default();
    assert_eq!(v, Version::new(0, 1, 0));
}

#[test]
fn version_parse_edges() {
    assert_eq!(Version::parse("+1.02.3").unwrap(), Version::new(1, 2, 3));
    assert_eq!(
        Version::parse("1..3"),
        Err(VersionError::InvalidComponent(String::new()))
    );
    assert_eq!(
        Version::parse("1.2.18446744073709551616"),
        Err(VersionError::InvalidComponent("18446744073709551616".to_string()))
    );
    assert_eq!(
        Version::parse("1.2.18446744073709551615").unwrap().patch,
        u64::MAX
    );
    assert_eq!(Version::parse("1.2.3.4"), Err(VersionError::InvalidFormat("1.2.3.4".to_string())));
    assert_eq!(Version::parse("1.2.3").unwrap().as_array(), [1, 2, 3]);
    assert_eq!(
        VersionError::InvalidFormat("x".to_string()).message(),
        "Invalid version format: x"
    );
}

#[test]
fn test_content_address() {
    let data = b"blob content";
    let addr = ContentAddress::from_data(data);
    assert_eq!(addr.algorithm, AddressAlgorithm::Blake3);
    assert!(addr.hash.verify(data));

    let s = addr.to_string();
    let restored = ContentAddress::from_str(&s).unwrap();
    assert_eq!(addr, restored);
}

#[test]
fn hash_compute_and_hex() {
    let h = hash::Hash::compute(b"hello world");
    assert_eq!(h.to_hex().len(), 64);
    assert_eq!(h.to_hex(), blake3::hash(b"hello world").to_hex().to_string());
    assert_eq!(hash::Hash::from_hex(&h.to_hex()).unwrap(), h);
    assert_eq!(hash::Hash::from_hex(&h.to_hex().to_uppercase()).unwrap(), h);
    assert_eq!(hash::Hash::from_hex("zz"), Err(HashError::InvalidHex));
    assert_eq!(hash::Hash::from_hex("abc"), Err(HashError::InvalidHex));
    assert_eq!(hash::Hash::from_hex("abcd"), Err(HashError::InvalidLength(2)));
    assert!(!h.verify(b"other data"));
    assert_eq!(hash::Hash::empty(), hash::Hash::compute(&[]));
    assert_eq!(hash::Hash::empty().to_hex(), blake3::hash(b"").to_hex().to_string());
    assert_eq!(hash::Hash::from_bytes([7u8; 32]).as_bytes(), &[7u8; 32]);
    assert_eq!(HashError::InvalidLength(3).to_string(), "Invalid hash length: 3 (expected 32)");
}

#[test]
fn hash_chain_root_and_validate() {
    let h1 = hash::Hash::compute(b"event1");
    let h2 = hash::Hash::compute(b"event2");
    let mut chain = HashChain::new();
    assert!(chain.root().is_none());
    chain.push(h1);
    assert_eq!(chain.tip(), Some(h1));
    chain.push(h2);
    assert_eq!(chain.root(), Some(h1.chain(&h2)));
    let mut both = Vec::new();
    both.extend_from_slice(h1.as_bytes());
    both.extend_from_slice(h2.as_bytes());
    assert_eq!(h1.chain(&h2), hash::Hash::compute(&both));
    assert!(chain.validate());
    chain.push(h2);
    assert!(!chain.validate());
    assert_eq!(chain.len(), 3);
}

#[test]
fn content_address_rejects_other_algorithms() {
    let h = hash::Hash::compute(b"x");
    let text = format!("sha256:{}", h.to_hex());
    assert_eq!(ContentAddress::from_str(&text), Err(HashError::InvalidHex));
    assert_eq!(ContentAddress::from_str("blake3"), Err(HashError::InvalidHex));
    assert_eq!(ContentAddress::from_str("blake3:00"), Err(HashError::InvalidLength(1)));
}

#[test]
fn test_hash_compute() {
    let data = b"hello world";
    let hash = hash::Hash::compute(data);
    assert_eq!(hash.to_hex().len(), 64);
}

#[test]
fn test_hash_from_to_hex() {
    let hash = hash::Hash::compute(b"test");
    let hex = hash.to_hex();
    let restored = hash::Hash::from_hex(&hex).unwrap();
    assert_eq!(hash, restored);
}

#[test]
fn test_hash_verify() {
    let data = b"test data";
    let hash = hash::Hash::compute(data);
    assert!(hash.verify(data));
    assert!(!hash.verify(b"other data"));
}

#[test]
fn test_hash_chain() {
    let mut chain = HashChain::new();
    assert!(chain.is_empty());

    let h1 = hash::Hash::compute(b"event1");
    let h2 = hash::Hash::compute(b"event2");

    chain.push(h1);
    assert_eq!(chain.len(), 1);
    assert_eq!(chain.tip(), Some(h1));

    chain.push(h2);
    assert_eq!(chain.len(), 2);
    assert_eq!(chain.tip(), Some(h2));

    assert!(chain.validate());
}

#[test]
fn hash_test_hash_chain_root() {
    let mut chain = HashChain::new();
    assert!(chain.root().is_none());

    let h1 = hash::Hash::compute(b"event1");
    let h2 = hash::Hash::compute(b"event2");
    chain.push(h1);
    chain.push(h2);

    let root = chain.root();
    assert!(root.is_some());

    let expected = h1.chain(&h2);
    assert_eq!(root, Some(expected));
}

#[test]
fn test_hash_chain_concatenation() {
    let h1 = hash::Hash::compute(b"first");
    let h2 = hash::Hash::compute(b"second");

    let chained = h1.chain(&h2);
    assert_ne!(chained, h1);
    assert_ne!(chained, h2);

    let chained2 = h1.chain(&h2);
    assert_eq!(chained, chained2);
}

#[test]
fn test_id_creation() {
    let run_id = RunId::new();
    let event_id = EventId::new();
    let node_id = NodeId::new();

    assert_ne!(run_id, RunId::new());
    assert_ne!(event_id, EventId::new());
    assert_ne!(node_id, NodeId::new());
}

#[test]
fn test_id_from_bytes() {
    let bytes = [1u8; 16];
    let id = RunId::from_bytes(bytes);
    assert_eq!(&id.as_bytes(), &bytes);
}

#[test]
fn test_id_display() {
    let id = RunId::new();
    let s = id.to_string();
    assert!(s.starts_with("run_"));
}

#[test]
fn test_node_id_from_name() {
    let id1 = NodeId::from_name("test_node");
    let id2 = NodeId::from_name("test_node");
    assert_eq!(id1, id2);

    let id3 = NodeId::from_name("other_node");
    assert_ne!(id1, id3);
}

#[test]
fn test_id_ord() {
    let id1 = EventId::new();
    let id2 = EventId::new();
    let _ = id1.cmp(&id2);
}

#[test]
fn id_bytes_and_text_round_trip() {
    let bytes: [u8; 16] = [0x12, 0x34, 0x56, 0x78, 0x9a, 0xbc, 0xde, 0xf0, 0x01, 0x23, 0x45, 0x67, 0x89, 0xab, 0xcd, 0xef];
    let id = NodeId::from_bytes(bytes);
    assert_eq!(id.value, 0x123456789abcdef00123456789abcdefu128);
    assert_eq!(id.as_bytes(), bytes);
    assert_eq!(id.to_string(), "node_12345678-9abc-def0-0123-456789abcdef");
    assert_eq!(TaskId::from_u128(1).to_string(), "task_00000000-0000-0000-0000-000000000001");
    assert_eq!(SnapshotId::from_u128(0).to_string(), "snap_00000000-0000-0000-0000-000000000000");
    assert_eq!(DecisionId::from_bytes([0xffu8; 16]).to_string(), "dec_ffffffff-ffff-ffff-ffff-ffffffffffff");
    assert!(ClusterId::new().to_string().starts_with("cluster_"));
    assert!(WorkerId::new().to_string().starts_with("worker_"));
    assert!(EventId::new().to_string().starts_with("evt_"));
    let fresh = RunId::new().value;
    assert_eq!((fresh >> 76) & 0xf, 4);
    assert_eq!((fresh >> 62) & 0x3, 2);
    assert_eq!(NodeId::from_name("test_node").value, uuid::Uuid::new_v5(&uuid::Uuid::NAMESPACE_DNS, b"test_node").as_u128());
}

#[test]
fn timestamp_now_is_after_2020() {
    let t = Timestamp::now();
    assert!(t.seconds > 1_600_000_000);
    assert!(t.nanos < 1_000_000_000);
}

#[test]
fn encoding_errors_become_invalid_encoding() {
    let e: CoreError = serde_json::from_str::<u8>("not json").unwrap_err().into();
    assert_eq!(e, CoreError::InvalidEncoding);
    let p: CoreError = postcard::from_bytes::<u32>(&[]).unwrap_err().into();
    assert_eq!(p, CoreError::InvalidEncoding);
}

#[test]
fn timestamp_add_up_to_the_last_second() {
    let t = Timestamp::new(u64::MAX - 1, 0).add(&Duration::new(1, 5));
    assert_eq!(t.seconds, u64::MAX);
    assert_eq!(t.nanos, 5);
    let c = Timestamp::new(1, 600_000_000).add(&Duration::new(2, 500_000_000));
    assert_eq!((c.seconds, c.nanos), (4, 100_000_000));
}

#[test]
fn version_text_parses_back() {
    for v in [Version::new(1, 2, 3), Version::new(0, 0, 0), Version::new(u64::MAX, 10, 7)] {
        assert_eq!(Version::parse(&v.to_string()), Ok(v));
    }
}

#[test]
fn capability_set_iterates_in_sorted_order() {
    let mut set = CapabilitySet::new();
    set.grant(Capability::ClockRead);
    set.grant(Capability::NetRead { allowlist: vec!["b.com".to_string()] });
    set.grant(Capability::FsWrite { prefixes: vec![".".to_string()] });
    set.grant(Capability::NetRead { allowlist: vec!["a.com".to_string()] });
    set.grant(Capability::WasmExec { fuel: 2, memory: 1 });
    set.grant(Capability::WasmExec { fuel: 1, memory: 9 });
    set.grant(Capability::NetRead { allowlist: vec!["a.com".to_string()] });
    let v = set.iter();
    assert_eq!(
        v,
        vec![
            Capability::NetRead { allowlist: vec!["a.com".to_string()] },
            Capability::NetRead { allowlist: vec!["b.com".to_string()] },
            Capability::FsWrite { prefixes: vec![".".to_string()] },
            Capability::WasmExec { fuel: 1, memory: 9 },
            Capability::WasmExec { fuel: 2, memory: 1 },
            Capability::ClockRead,
        ]
    );
    assert!(Capability::NetRead { allowlist: vec!["a".to_string()] }
        .precedes(&Capability::NetRead { allowlist: vec!["a".to_string(), "b".to_string()] }));
    assert!(!Capability::ClockRead.precedes(&Capability::ClockRead));
}

#[test]
fn capability_allow_and_grant_agree() {
    let mut s1 = CapabilitySet::new();
    let mut s2 = CapabilitySet::new();
    for c in [Capability::ClockRead, Capability::DbRead { tables: vec!["t".to_string()] }] {
        s1.grant(c.duplicate());
        s2.grant(c);
    }
    let c = Capability::NetRead { allowlist: vec!["a.com".to_string()] };
    s1.allow(c.clone());
    s2.grant(c);
    assert_eq!(s1.iter(), s2.iter());
    assert_eq!(s1.len(), 3);
}
