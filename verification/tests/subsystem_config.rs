use chaincore::subsys::SubsystemConfig;

#[test]
fn named_config() {
    let config = SubsystemConfig::named("foo");
    assert_eq!(config.subsystem_name, "foo");
}
