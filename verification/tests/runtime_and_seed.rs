use fringe::{parse_runtime, resolve_seed, RuntimeKind};

#[test]
fn parse_runtime_accepts_names() {
    assert_eq!(parse_runtime("cpu"), Ok(RuntimeKind::Cpu));
    assert_eq!(parse_runtime("gpu"), Ok(RuntimeKind::Gpu));
    assert_eq!(parse_runtime("  GPU\n"), Ok(RuntimeKind::Gpu));
    assert_eq!(parse_runtime("\tCpU "), Ok(RuntimeKind::Cpu));
    assert_eq!(parse_runtime("\u{3000}cpu\u{a0}"), Ok(RuntimeKind::Cpu));
}

#[test]
fn parse_runtime_refuses_others() {
    assert_eq!(
        parse_runtime("tpu"),
        Err("invalid runtime 'tpu', expected 'cpu' or 'gpu'".to_string())
    );
    assert_eq!(
        parse_runtime(" c p u "),
        Err("invalid runtime ' c p u ', expected 'cpu' or 'gpu'".to_string())
    );
    assert!(parse_runtime("").is_err());
    assert!(parse_runtime("cpus").is_err());
    assert!(parse_runtime("ｃpu").is_err());
}

#[test]
fn runtime_names() {
    assert_eq!(RuntimeKind::Cpu.name(), "cpu");
    assert_eq!(RuntimeKind::Gpu.name(), "gpu");
}

#[test]
fn given_seed_is_kept() {
    assert_eq!(resolve_seed(Some(42)), Some(42));
    assert_eq!(resolve_seed(Some(0)), Some(0));
}

#[test]
fn fresh_seeds_differ() {
    let a = resolve_seed(None).unwrap();
    let b = resolve_seed(None).unwrap();
    let c = resolve_seed(None).unwrap();
    assert!(a != b || b != c);
}
