use feroxbuster::config::{
    parse_header, parse_status_code, parse_status_codes, statuscodes, threads, timeout, useragent,
    wordlist, CliArgs, ClientPlan, ConfigError, Configuration, FileSettings,
};
use feroxbuster::{DEFAULT_CONFIG_NAME, DEFAULT_WORDLIST, VERSION};
use std::collections::HashMap;

fn text_of(table: &toml::Value, key: &str) -> Option<String> {
    table.get(key).and_then(|v| v.as_str()).map(String::from)
}

fn number_of(table: &toml::Value, key: &str) -> Option<i64> {
    table.get(key).and_then(|v| v.as_integer())
}

fn switch_of(table: &toml::Value, key: &str) -> Option<bool> {
    table.get(key).and_then(|v| v.as_bool())
}

fn texts_of(table: &toml::Value, key: &str) -> Option<Vec<String>> {
    let items = table.get(key)?.as_array()?;
    Some(items.iter().map(|v| String::from(v.as_str().unwrap())).collect())
}

fn pairs_of(table: &toml::Value, key: &str) -> Option<Vec<(String, String)>> {
    let items = table.get(key)?.as_table()?;
    Some(
        items
            .iter()
            .map(|(k, v)| (k.clone(), String::from(v.as_str().unwrap())))
            .collect(),
    )
}

fn settings_from(data: &str) -> FileSettings {
    let table: toml::Value = data.parse().unwrap();
    FileSettings {
        wordlist: text_of(&table, "wordlist"),
        statuscodes: table.get("statuscodes").and_then(|v| v.as_array()).map(|codes| {
            codes
                .iter()
                .map(|c| c.as_integer().unwrap() as u16)
                .collect()
        }),
        threads: number_of(&table, "threads").map(|n| n as usize),
        timeout: number_of(&table, "timeout").map(|n| n as u64),
        proxy: text_of(&table, "proxy"),
        verbosity: number_of(&table, "verbosity").map(|n| n as u8),
        quiet: switch_of(&table, "quiet"),
        output: text_of(&table, "output"),
        useragent: text_of(&table, "useragent"),
        follow_redirects: switch_of(&table, "follow_redirects"),
        insecure: switch_of(&table, "insecure"),
        extensions: texts_of(&table, "extensions"),
        headers: pairs_of(&table, "headers"),
        norecursion: switch_of(&table, "norecursion"),
        add_slash: switch_of(&table, "add_slash"),
        queries: None,
    }
}

fn setup_config_test() -> Configuration {
    let data = r#"
            wordlist = "/some/path"
            statuscodes = [201, 301, 401]
            threads = 40
            timeout = 5
            proxy = "http://127.0.0.1:8080"
            quiet = true
            verbosity = 1
            output = "/some/otherpath"
            follow_redirects = true
            insecure = true
            extensions = ["html", "php", "js"]
            headers = {stuff = "things", mostuff = "mothings"}
            norecursion = true
        "#;
    Configuration::default().merge_file(settings_from(data))
}

fn args_for(url: &str) -> CliArgs {
    CliArgs {
        url: String::from(url),
        ..Default::default()
    }
}

fn map_of(config: &Configuration) -> HashMap<String, String> {
    config.headers.to_pairs().into_iter().collect()
}

#[test]
fn default_configuration() {
    let config = Configuration::default();
    assert_eq!(config.wordlist, wordlist());
    assert_eq!(config.proxy, String::new());
    assert_eq!(config.target_url, String::new());
    assert_eq!(config.statuscodes, statuscodes());
    assert_eq!(config.threads, threads());
    assert_eq!(config.timeout, timeout());
    assert_eq!(config.verbosity, 0);
    assert_eq!(config.quiet, false);
    assert_eq!(config.norecursion, false);
    assert_eq!(config.follow_redirects, false);
    assert_eq!(config.insecure, false);
    assert_eq!(config.extensions, Vec::<String>::new());
    assert_eq!(map_of(&config), HashMap::new());
}

#[test]
fn config_reads_wordlist() {
    let config = setup_config_test();
    assert_eq!(config.wordlist, "/some/path");
}

#[test]
fn config_reads_statuscodes() {
    let config = setup_config_test();
    assert_eq!(config.statuscodes, vec![201, 301, 401]);
}

#[test]
fn config_reads_threads() {
    let config = setup_config_test();
    assert_eq!(config.threads, 40);
}

#[test]
fn config_reads_timeout() {
    let config = setup_config_test();
    assert_eq!(config.timeout, 5);
}

#[test]
fn config_reads_proxy() {
    let config = setup_config_test();
    assert_eq!(config.proxy, "http://127.0.0.1:8080");
}

#[test]
fn config_reads_quiet() {
    let config = setup_config_test();
    assert_eq!(config.quiet, true);
}

#[test]
fn config_reads_verbosity() {
    let config = setup_config_test();
    assert_eq!(config.verbosity, 1);
}

#[test]
fn config_reads_output() {
    let config = setup_config_test();
    assert_eq!(config.output, "/some/otherpath");
}

#[test]
fn config_reads_follow_redirects() {
    let config = setup_config_test();
    assert_eq!(config.follow_redirects, true);
}

#[test]
fn config_reads_insecure() {
    let config = setup_config_test();
    assert_eq!(config.insecure, true);
}

#[test]
fn config_reads_norecursion() {
    let config = setup_config_test();
    assert_eq!(config.norecursion, true);
}

#[test]
fn config_reads_extensions() {
    let config = setup_config_test();
    assert_eq!(config.extensions, vec!["html", "php", "js"]);
}

#[test]
fn config_reads_headers() {
    let config = setup_config_test();
    let mut headers = HashMap::new();
    headers.insert("stuff".to_string(), "things".to_string());
    headers.insert("mostuff".to_string(), "mothings".to_string());
    assert_eq!(map_of(&config), headers);
}

#[test]
fn defaults_have_the_documented_values() {
    assert_eq!(timeout(), 7);
    assert_eq!(threads(), 50);
    assert_eq!(statuscodes(), vec![200, 204, 301, 302, 307, 308, 401, 403, 405]);
    assert_eq!(wordlist(), DEFAULT_WORDLIST);
    assert_eq!(useragent(), format!("feroxbuster/{}", VERSION));
    assert_eq!(DEFAULT_CONFIG_NAME, "feroxbuster.toml");
    let config = Configuration::default();
    assert_eq!(config.useragent, useragent());
    assert_eq!(config.add_slash, false);
    assert!(config.queries.is_empty());
    assert_eq!(config.output, "");
}

#[test]
fn absent_file_fields_keep_the_defaults() {
    let config = Configuration::default().merge_file(settings_from("threads = 40"));
    assert_eq!(config.threads, 40);
    assert_eq!(config.timeout, 7);
    assert_eq!(config.wordlist, DEFAULT_WORDLIST);
    assert_eq!(config.statuscodes, statuscodes());
    assert_eq!(config.useragent, useragent());
    assert_eq!(config.quiet, false);
    assert!(config.headers.is_empty());
    let untouched = Configuration::default().merge_file(FileSettings::default());
    assert_eq!(untouched.threads, 50);
    assert_eq!(untouched.wordlist, DEFAULT_WORDLIST);
}

#[test]
fn file_threads_stand_without_the_flag() {
    let file = settings_from("threads = 40");
    let config = Configuration::new(Some(file), args_for("http://localhost")).unwrap();
    assert_eq!(config.threads, 40);
    assert_eq!(config.target_url, "http://localhost");
}

#[test]
fn flag_threads_replace_those_of_the_file() {
    let file = settings_from("threads = 40");
    let args = CliArgs {
        threads: Some(String::from("10")),
        ..args_for("http://localhost")
    };
    let config = Configuration::new(Some(file), args).unwrap();
    assert_eq!(config.threads, 10);
}

#[test]
fn no_file_and_no_flags_give_the_defaults_with_the_target() {
    let config = Configuration::new(None, args_for("http://localhost")).unwrap();
    assert_eq!(config.target_url, "http://localhost");
    assert_eq!(config.threads, 50);
    assert_eq!(config.timeout, 7);
    assert_eq!(config.wordlist, DEFAULT_WORDLIST);
    assert_eq!(config.statuscodes, statuscodes());
    assert_eq!(config.verbosity, 0);
    assert!(config.extensions.is_empty());
    assert!(matches!(config.client_plan(), ClientPlan::KeepDefault));
}

#[test]
fn every_option_of_the_command_line_replaces_the_file() {
    let args = CliArgs {
        url: String::from("http://target"),
        wordlist: Some(String::from("/cli/words")),
        threads: Some(String::from("3")),
        timeout: Some(String::from("11")),
        output: Some(String::from("/cli/out")),
        statuscodes: Some(vec![String::from("200"), String::from("404")]),
        extensions: Some(vec![String::from("txt")]),
        proxy: Some(String::from("http://10.0.0.1:3128")),
        useragent: Some(String::from("agent/1")),
        headers: None,
        quiet: false,
        follow_redirects: false,
        norecursion: false,
        insecure: false,
        verbosity: 3,
    };
    let config = setup_config_test().merge_args(args).unwrap();
    assert_eq!(config.target_url, "http://target");
    assert_eq!(config.wordlist, "/cli/words");
    assert_eq!(config.threads, 3);
    assert_eq!(config.timeout, 11);
    assert_eq!(config.output, "/cli/out");
    assert_eq!(config.statuscodes, vec![200, 404]);
    assert_eq!(config.extensions, vec!["txt"]);
    assert_eq!(config.proxy, "http://10.0.0.1:3128");
    assert_eq!(config.useragent, "agent/1");
    assert_eq!(config.verbosity, 3);
}

#[test]
fn absent_options_keep_what_the_file_set() {
    let config = setup_config_test().merge_args(args_for("http://target")).unwrap();
    assert_eq!(config.wordlist, "/some/path");
    assert_eq!(config.statuscodes, vec![201, 301, 401]);
    assert_eq!(config.threads, 40);
    assert_eq!(config.timeout, 5);
    assert_eq!(config.proxy, "http://127.0.0.1:8080");
    assert_eq!(config.verbosity, 1);
    assert_eq!(config.output, "/some/otherpath");
    assert_eq!(config.extensions, vec!["html", "php", "js"]);
    assert_eq!(map_of(&config).len(), 2);
}

#[test]
fn absent_switches_never_reset_the_file() {
    let config = setup_config_test().merge_args(args_for("http://target")).unwrap();
    assert_eq!(config.quiet, true);
    assert_eq!(config.follow_redirects, true);
    assert_eq!(config.insecure, true);
    assert_eq!(config.norecursion, true);
}

#[test]
fn switches_of_the_command_line_set_their_values() {
    let args = CliArgs {
        quiet: true,
        follow_redirects: true,
        norecursion: true,
        insecure: true,
        ..args_for("http://target")
    };
    let config = Configuration::new(None, args).unwrap();
    assert!(config.quiet && config.follow_redirects && config.norecursion && config.insecure);
    let only_quiet = CliArgs {
        quiet: true,
        ..args_for("http://target")
    };
    let config = Configuration::new(None, only_quiet).unwrap();
    assert!(config.quiet);
    assert!(!config.follow_redirects && !config.norecursion && !config.insecure);
}

#[test]
fn the_file_sets_slash_and_queries() {
    let file = FileSettings {
        add_slash: Some(true),
        queries: Some(vec![(String::from("a"), String::from("b"))]),
        ..Default::default()
    };
    let config = Configuration::new(Some(file), args_for("http://target")).unwrap();
    assert!(config.add_slash);
    assert_eq!(config.queries, vec![(String::from("a"), String::from("b"))]);
}

#[test]
fn verbosity_counts_the_switches() {
    let with = |n: u64| {
        let args = CliArgs {
            verbosity: n,
            ..args_for("http://target")
        };
        setup_config_test().merge_args(args).unwrap().verbosity
    };
    assert_eq!(with(0), 1);
    assert_eq!(with(1), 1);
    assert_eq!(with(4), 4);
    assert_eq!(with(255), 255);
    assert_eq!(with(256), 0);
    assert_eq!(with(257), 1);
}

#[test]
fn invalid_threads_are_an_error() {
    for text in ["", "many", "-1", "1.5", "99999999999999999999999"] {
        let args = CliArgs {
            threads: Some(String::from(text)),
            ..args_for("http://target")
        };
        assert_eq!(
            Configuration::new(None, args).err(),
            Some(ConfigError::InvalidThreads)
        );
    }
}

#[test]
fn invalid_status_codes_are_an_error() {
    for text in ["", "20", "2000", "abc", "099", "20x", "-20", "２００"] {
        let args = CliArgs {
            statuscodes: Some(vec![String::from("200"), String::from(text)]),
            ..args_for("http://target")
        };
        assert_eq!(
            Configuration::new(None, args).err(),
            Some(ConfigError::InvalidStatusCode)
        );
    }
}

#[test]
fn invalid_timeout_is_an_error() {
    let args = CliArgs {
        timeout: Some(String::from("soon")),
        ..args_for("http://target")
    };
    assert_eq!(
        Configuration::new(None, args).err(),
        Some(ConfigError::InvalidTimeout)
    );
}

#[test]
fn the_first_invalid_value_is_reported() {
    let all_wrong = CliArgs {
        threads: Some(String::from("x")),
        statuscodes: Some(vec![String::from("x")]),
        timeout: Some(String::from("x")),
        ..args_for("http://target")
    };
    assert_eq!(
        Configuration::new(None, all_wrong).err(),
        Some(ConfigError::InvalidThreads)
    );
    let codes_and_timeout = CliArgs {
        statuscodes: Some(vec![String::from("x")]),
        timeout: Some(String::from("x")),
        ..args_for("http://target")
    };
    assert_eq!(
        Configuration::new(None, codes_and_timeout).err(),
        Some(ConfigError::InvalidStatusCode)
    );
}

#[test]
fn status_codes_are_three_digits() {
    assert_eq!(parse_status_code("200"), Some(200));
    assert_eq!(parse_status_code("100"), Some(100));
    assert_eq!(parse_status_code("999"), Some(999));
    assert_eq!(parse_status_code("404"), Some(404));
    assert_eq!(parse_status_code("099"), None);
    assert_eq!(parse_status_code("000"), None);
    assert_eq!(parse_status_code("20"), None);
    assert_eq!(parse_status_code("2000"), None);
    assert_eq!(parse_status_code(""), None);
    assert_eq!(parse_status_code("2 0"), None);
    assert_eq!(parse_status_code("+20"), None);
    assert_eq!(parse_status_code("é"), None);
    assert_eq!(parse_status_code("éé"), None);
    assert_eq!(parse_status_code("€"), None);
    assert_eq!(
        parse_status_codes(&vec![String::from("201"), String::from("301")]),
        Some(vec![201, 301])
    );
    assert_eq!(
        parse_status_codes(&vec![String::from("201"), String::from("31")]),
        None
    );
    assert_eq!(parse_status_codes(&vec![]), Some(vec![]));
}

#[test]
fn headers_are_split_at_the_first_colon() {
    let header = |text: &str| parse_header(text);
    assert_eq!(header("stuff: things"), (String::from("stuff"), String::from("things")));
    assert_eq!(header("stuff:things"), (String::from("stuff"), String::from("things")));
    assert_eq!(
        header("  Accept  :  text/html \t"),
        (String::from("Accept"), String::from("text/html"))
    );
    assert_eq!(
        header("Referer: http://localhost:8080/a"),
        (String::from("Referer"), String::from("http://localhost:8080/a"))
    );
    assert_eq!(header("X-Empty:"), (String::from("X-Empty"), String::new()));
    assert_eq!(header(":value"), (String::new(), String::from("value")));
    assert_eq!(header(" no delimiter "), (String::from("no delimiter"), String::new()));
    assert_eq!(header(""), (String::new(), String::new()));
}

#[test]
fn headers_of_the_command_line_are_set_over_those_of_the_file() {
    let args = CliArgs {
        headers: Some(vec![
            String::from("stuff: other"),
            String::from("new: value"),
            String::from("new: later"),
        ]),
        ..args_for("http://target")
    };
    let config = setup_config_test().merge_args(args).unwrap();
    let mut expected = HashMap::new();
    expected.insert("stuff".to_string(), "other".to_string());
    expected.insert("mostuff".to_string(), "mothings".to_string());
    expected.insert("new".to_string(), "later".to_string());
    assert_eq!(map_of(&config), expected);
}

#[test]
fn a_client_is_built_only_where_the_configuration_asks_for_another() {
    assert!(!Configuration::default().needs_client());
    assert!(matches!(Configuration::default().client_plan(), ClientPlan::KeepDefault));
    let unrelated = Configuration {
        threads: 1,
        quiet: true,
        norecursion: true,
        wordlist: String::from("/w"),
        extensions: vec![String::from("js")],
        ..Default::default()
    };
    assert!(!unrelated.needs_client());

    let mut one_header = Configuration::default();
    one_header.headers.insert(String::from("a"), String::from("b"));
    let differing = vec![
        Configuration { proxy: String::from("http://127.0.0.1:8080"), ..Default::default() },
        Configuration { timeout: 8, ..Default::default() },
        Configuration { useragent: String::from("agent"), ..Default::default() },
        Configuration { follow_redirects: true, ..Default::default() },
        Configuration { insecure: true, ..Default::default() },
        one_header,
    ];
    for config in differing {
        assert!(config.needs_client());
        assert!(matches!(config.client_plan(), ClientPlan::Build(_)));
    }
}

#[test]
fn the_client_settings_are_those_of_the_configuration() {
    let config = setup_config_test();
    match config.client_plan() {
        ClientPlan::Build(settings) => {
            assert_eq!(settings.timeout, 5);
            assert_eq!(settings.useragent, useragent());
            assert_eq!(settings.follow_redirects, true);
            assert_eq!(settings.insecure, true);
            assert_eq!(settings.proxy, Some(String::from("http://127.0.0.1:8080")));
            let headers: HashMap<String, String> = settings.headers.into_iter().collect();
            assert_eq!(headers, map_of(&config));
        }
        ClientPlan::KeepDefault => panic!("the file asks for another client"),
    }
    let no_proxy = Configuration { insecure: true, ..Default::default() };
    assert_eq!(no_proxy.client_settings().proxy, None);
    assert!(no_proxy.client_settings().headers.is_empty());
}

#[test]
fn config_errors_have_messages() {
    assert_eq!(ConfigError::InvalidThreads.message(), "invalid number of threads");
    assert_eq!(ConfigError::InvalidStatusCode.message(), "invalid status code");
    assert_eq!(ConfigError::InvalidTimeout.message(), "invalid timeout");
}
