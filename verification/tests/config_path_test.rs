use zabrze::config::config_path::{EnvValue, get_default_config_dir};

#[test]
fn test_config_path() {
    struct Scenario {
        pub testname: &'static str,
        pub zabrze_config_home: EnvValue,
        pub xdg_config_home: EnvValue,
        pub home: EnvValue,
        pub expected: &'static str,
    }

    let scenarios = [
        Scenario {
            testname: "follow ZABRZE_CONFIG_HOME",
            zabrze_config_home: EnvValue::Utf8("/home/user/.zabrze".to_string()),
            xdg_config_home: EnvValue::Utf8("/home/user/.xdgConfig".to_string()),
            home: EnvValue::Utf8("/home/user".to_string()),
            expected: "/home/user/.zabrze",
        },
        Scenario {
            testname: "follow XDG_CONFIG_HOME",
            zabrze_config_home: EnvValue::Unset,
            xdg_config_home: EnvValue::Utf8("/home/user/.xdgConfig".to_string()),
            home: EnvValue::Utf8("/home/user".to_string()),
            expected: "/home/user/.xdgConfig/zabrze",
        },
        Scenario {
            testname: "use default path",
            zabrze_config_home: EnvValue::Unset,
            xdg_config_home: EnvValue::Unset,
            home: EnvValue::Utf8("/home/user".to_string()),
            expected: "/home/user/.config/zabrze",
        },
    ];

    for s in scenarios {
        assert_eq!(
            get_default_config_dir(s.zabrze_config_home, s.xdg_config_home, s.home),
            Some(s.expected.to_string()),
            "{}",
            s.testname
        );
    }
}
