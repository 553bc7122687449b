use deno_ls_init::{config_gen, deno_init, ConfigInfo, InitError};

#[test]
fn empty_string_test() {
    let config = config_gen();
    let result = deno_init("".to_string(), &config);
    let expected = r#"{
  "compilerOptions": {
    "baseUrl": ".",
    "paths": {
      "deno": "../../this/is/deno/path",
      "http://*": "../../this/is/http/path",
      "https://*": "../../this/is/https/path"
    },
    "plugins": [
      {
        "name": "typescript-deno-plugin"
      }
    ]
  }
}"#;
    assert_eq!(expected, result.unwrap());
}

#[test]
fn no_compiler_options() {
    let config = config_gen();
    let test_str = r#"
{
  "testOption": {
    "testA": "test",
    "testB": [
      "testB-A",
      1234,
      "testB-B",
      "aiueo"
    ]
  }
}
"#;
    let result = deno_init(test_str.to_string(), &config);
    let expected = r#"{
  "compilerOptions": {
    "baseUrl": ".",
    "paths": {
      "deno": "../../this/is/deno/path",
      "http://*": "../../this/is/http/path",
      "https://*": "../../this/is/https/path"
    },
    "plugins": [
      {
        "name": "typescript-deno-plugin"
      }
    ]
  },
  "testOption": {
    "testA": "test",
    "testB": [
      "testB-A",
      1234,
      "testB-B",
      "aiueo"
    ]
  }
}"#;
    assert_eq!(expected, result.unwrap());
}

#[test]
fn mix() {
    let config = config_gen();
    let test_str = r#"
{
  "compilerOptions": {
    "baseUrl": ".",
    "paths": {
      "pathA": "/path/to/path/A",
      "pathB": "/path/to/path/B"
    },
    "plugins": [
      {
        "name": "plugin-A"
      },
      {
        "name": "plugin-B"
      }
    ],
    "otherOption": "aaa"
  },
  "testOption": {
    "testA": "test",
    "testB": [
      "testB-A",
      1234,
      "testB-B",
      "aiueo"
    ]
  }
}
"#;
    let result = deno_init(test_str.to_string(), &config);
    let expected = r#"{
  "compilerOptions": {
    "baseUrl": ".",
    "otherOption": "aaa",
    "paths": {
      "deno": "../../this/is/deno/path",
      "http://*": "../../this/is/http/path",
      "https://*": "../../this/is/https/path",
      "pathA": "/path/to/path/A",
      "pathB": "/path/to/path/B"
    },
    "plugins": [
      {
        "name": "plugin-A"
      },
      {
        "name": "plugin-B"
      },
      {
        "name": "typescript-deno-plugin"
      }
    ]
  },
  "testOption": {
    "testA": "test",
    "testB": [
      "testB-A",
      1234,
      "testB-B",
      "aiueo"
    ]
  }
}"#;
    assert_eq!(expected, result.unwrap());
}

#[test]
fn malformed_input_gives_parse_error() {
    let config = config_gen();
    assert_eq!(deno_init("{not json".to_string(), &config), Err(InitError::Parse));
    assert_eq!(deno_init("{\"a\": }".to_string(), &config), Err(InitError::Parse));
    assert_eq!(deno_init("{} trailing".to_string(), &config), Err(InitError::Parse));
    assert_eq!(deno_init("\"unterminated".to_string(), &config), Err(InitError::Parse));
}

#[test]
fn non_object_root_gives_structure_error() {
    let config = config_gen();
    assert_eq!(deno_init("[1, 2]".to_string(), &config), Err(InitError::Structure));
    assert_eq!(deno_init("42".to_string(), &config), Err(InitError::Structure));
    assert_eq!(deno_init("null".to_string(), &config), Err(InitError::Structure));
    assert_eq!(deno_init("\"text\"".to_string(), &config), Err(InitError::Structure));
}

#[test]
fn non_object_compiler_options_gives_structure_error() {
    let config = config_gen();
    let input = r#"{"compilerOptions": "x"}"#;
    assert_eq!(deno_init(input.to_string(), &config), Err(InitError::Structure));
}

#[test]
fn non_object_paths_gives_structure_error() {
    let config = config_gen();
    let input = r#"{"compilerOptions": {"paths": 3}}"#;
    assert_eq!(deno_init(input.to_string(), &config), Err(InitError::Structure));
}

#[test]
fn non_array_plugins_gives_structure_error() {
    let config = config_gen();
    let input = r#"{"compilerOptions": {"plugins": {}}}"#;
    assert_eq!(deno_init(input.to_string(), &config), Err(InitError::Structure));
}

#[test]
fn null_compiler_options_treated_as_absent() {
    let config = config_gen();
    let from_null = deno_init(r#"{"compilerOptions": null}"#.to_string(), &config).unwrap();
    let from_empty = deno_init("".to_string(), &config).unwrap();
    assert_eq!(from_null, from_empty);
}

#[test]
fn managed_entries_overwrite_prior_values() {
    let config = config_gen();
    let input = r#"
{
  "compilerOptions": {
    "baseUrl": "/somewhere/else",
    "paths": {
      "deno": "/stale/deno",
      "http://*": "/stale/http",
      "https://*": "/stale/https",
      "kept": "/kept/path"
    }
  }
}
"#;
    let result = deno_init(input.to_string(), &config).unwrap();
    let expected = r#"{
  "compilerOptions": {
    "baseUrl": ".",
    "paths": {
      "deno": "../../this/is/deno/path",
      "http://*": "../../this/is/http/path",
      "https://*": "../../this/is/https/path",
      "kept": "/kept/path"
    },
    "plugins": [
      {
        "name": "typescript-deno-plugin"
      }
    ]
  }
}"#;
    assert_eq!(expected, result);
}

#[test]
fn second_run_keeps_paths_and_appends_plugin() {
    let config = config_gen();
    let first = deno_init("".to_string(), &config).unwrap();
    let second = deno_init(first, &config).unwrap();
    let expected = r#"{
  "compilerOptions": {
    "baseUrl": ".",
    "paths": {
      "deno": "../../this/is/deno/path",
      "http://*": "../../this/is/http/path",
      "https://*": "../../this/is/https/path"
    },
    "plugins": [
      {
        "name": "typescript-deno-plugin"
      },
      {
        "name": "typescript-deno-plugin"
      }
    ]
  }
}"#;
    assert_eq!(expected, second);
}

#[test]
fn path_strings_are_escaped_when_embedded() {
    let config = ConfigInfo::from_paths(
        "a\"b".to_string(),
        "c\\d".to_string(),
        "e\tf".to_string(),
    );
    let result = deno_init("".to_string(), &config).unwrap();
    let expected = "{\n  \"compilerOptions\": {\n    \"baseUrl\": \".\",\n    \"paths\": {\n      \"deno\": \"a\\\"b\",\n      \"http://*\": \"c\\\\d\",\n      \"https://*\": \"e\\tf\"\n    },\n    \"plugins\": [\n      {\n        \"name\": \"typescript-deno-plugin\"\n      }\n    ]\n  }\n}";
    assert_eq!(expected, result);
}

#[test]
fn unrelated_values_pass_through_verbatim() {
    let config = config_gen();
    let input = r#"
{
  "testOption": {
    "big": 123456789012345678901234567890,
    "exp": -0.5e+2,
    "escaped": "li\nne A",
    "flags": [true, false, null]
  }
}
"#;
    let result = deno_init(input.to_string(), &config).unwrap();
    let expected = r#"{
  "compilerOptions": {
    "baseUrl": ".",
    "paths": {
      "deno": "../../this/is/deno/path",
      "http://*": "../../this/is/http/path",
      "https://*": "../../this/is/https/path"
    },
    "plugins": [
      {
        "name": "typescript-deno-plugin"
      }
    ]
  },
  "testOption": {
    "big": 123456789012345678901234567890,
    "escaped": "li\nne A",
    "exp": -0.5e+2,
    "flags": [
      true,
      false,
      null
    ]
  }
}"#;
    assert_eq!(expected, result);
}

#[test]
fn repeated_key_keeps_the_later_value() {
    let config = config_gen();
    let input = r#"{"testOption": {"a": 1, "a": 2}}"#;
    let result = deno_init(input.to_string(), &config).unwrap();
    assert!(result.contains("\"a\": 2"));
    assert!(!result.contains("\"a\": 1"));
}

#[test]
fn from_paths_holds_the_given_strings() {
    let config = ConfigInfo::from_paths("p1".to_string(), "p2".to_string(), "p3".to_string());
    let result = deno_init("".to_string(), &config).unwrap();
    assert!(result.contains("\"deno\": \"p1\""));
    assert!(result.contains("\"http://*\": \"p2\""));
    assert!(result.contains("\"https://*\": \"p3\""));
}

#[test]
fn second_run_on_populated_document() {
    let config = config_gen();
    let input = r#"
{
  "compilerOptions": {
    "paths": {
      "pathA": "/path/to/path/A"
    },
    "plugins": [
      {
        "name": "plugin-A"
      }
    ]
  }
}
"#;
    let first = deno_init(input.to_string(), &config).unwrap();
    let second = deno_init(first, &config).unwrap();
    let expected = r#"{
  "compilerOptions": {
    "baseUrl": ".",
    "paths": {
      "deno": "../../this/is/deno/path",
      "http://*": "../../this/is/http/path",
      "https://*": "../../this/is/https/path",
      "pathA": "/path/to/path/A"
    },
    "plugins": [
      {
        "name": "plugin-A"
      },
      {
        "name": "typescript-deno-plugin"
      },
      {
        "name": "typescript-deno-plugin"
      }
    ]
  }
}"#;
    assert_eq!(expected, second);
}

#[test]
fn unicode_escapes_pass_through_verbatim() {
    let config = config_gen();
    let input = r#"{"testOption": "\u0041 is \u00e9"}"#;
    let result = deno_init(input.to_string(), &config).unwrap();
    assert!(result.contains(r#""testOption": "\u0041 is \u00e9""#));
    let bad = r#"{"testOption": "\u00g1"}"#;
    assert_eq!(deno_init(bad.to_string(), &config), Err(InitError::Parse));
}
