use rohan::model::{Scenario, TestEntry};
use rohan::openapi::validate_spec;
use rohan::plan::TestPlan;
use rohan::planio::{plan_from_text, plan_to_text};

fn entry(name: &str, method: &str, path: &str) -> TestEntry {
    TestEntry {
        name: name.to_string(),
        method: method.to_string(),
        path: path.to_string(),
        assertions: vec!["status is 200".to_string()],
    }
}

#[test]
fn test_plan_round_trip_five_tests() {
    // Serializing a plan with 5 tests and unit mode, then reading it
    // back, keeps title, version, mode and all 5 tests in order.
    let tests: Vec<TestEntry> = (0..5)
        .map(|i| entry(&format!("Test_{}", i), "GET", &format!("/r/{}", i)))
        .collect();
    let plan = TestPlan::new_unit("Test API".to_string(), "1.0.0".to_string(), tests);
    let text = plan_to_text(&plan);
    let back = plan_from_text(&text).expect("serialized plan must read back");
    assert_eq!(back.api_title, "Test API");
    assert_eq!(back.api_version, "1.0.0");
    assert!(!back.e2e);
    assert_eq!(back.tests.len(), 5);
    assert_eq!(back.scenarios.len(), 0);
    for i in 0..5 {
        assert_eq!(back.tests[i].name, format!("Test_{}", i));
        assert_eq!(back.tests[i].method, "GET");
        assert_eq!(back.tests[i].path, format!("/r/{}", i));
        assert_eq!(back.tests[i].assertions, vec!["status is 200".to_string()]);
    }
}

#[test]
fn test_plan_round_trip_scenarios() {
    let scenarios = vec![Scenario {
        name: "Signup then login".to_string(),
        steps: vec!["POST /signup".to_string(), "POST /login".to_string()],
    }];
    let plan = TestPlan::new_e2e("Flow API".to_string(), "2.1.0".to_string(), scenarios);
    let text = plan_to_text(&plan);
    let back = plan_from_text(&text).expect("serialized plan must read back");
    assert!(back.e2e);
    assert_eq!(back.scenarios.len(), 1);
    assert_eq!(back.scenarios[0].name, "Signup then login");
    assert_eq!(back.scenarios[0].steps.len(), 2);
    assert_eq!(back.scenarios[0].steps[1], "POST /login");
}

#[test]
fn test_plan_round_trip_escaped_characters() {
    // Names with quotes, backslashes and newlines survive the trip.
    let tests = vec![TestEntry {
        name: "He said \"go\"\\now\n".to_string(),
        method: "POST".to_string(),
        path: "/a\tb".to_string(),
        assertions: vec![],
    }];
    let plan = TestPlan::new_unit("Q\"uote".to_string(), "1.0".to_string(), tests);
    let text = plan_to_text(&plan);
    let back = plan_from_text(&text).expect("escaped plan must read back");
    assert_eq!(back.api_title, "Q\"uote");
    assert_eq!(back.tests[0].name, "He said \"go\"\\now\n");
    assert_eq!(back.tests[0].path, "/a\tb");
}

#[test]
fn test_plan_from_garbage_is_rejected() {
    assert!(plan_from_text("{ not valid json }").is_none());
    assert!(plan_from_text("").is_none());
    assert!(plan_from_text("[1,2,3]").is_none());
    assert!(plan_from_text("{\"apiTitle\":\"x\"}").is_none());
}

#[test]
fn test_plan_text_is_whitespace_tolerant() {
    let text = " { \"apiTitle\" : \"T\" , \"apiVersion\" : \"1\" , \"isE2E\" : false , \"tests\" : [ ] } ";
    let back = plan_from_text(text).expect("spaced plan must read back");
    assert_eq!(back.api_title, "T");
    assert_eq!(back.tests.len(), 0);
}

#[test]
fn test_validate_spec_minimal() {
    let spec = r#"{
            "openapi": "3.0.0",
            "info": {
                "title": "Test API",
                "version": "1.0.0"
            },
            "paths": {}
        }"#;
    let result = validate_spec(spec);
    assert!(result.is_ok());
    let api = result.unwrap();
    assert_eq!(api.title, "Test API");
    assert_eq!(api.version, "1.0.0");
}

#[test]
fn test_validate_spec_with_paths() {
    let spec = r#"{
            "openapi": "3.0.0",
            "info": {
                "title": "API with Paths",
                "version": "2.0.0"
            },
            "paths": {
                "/users": {
                    "get": {
                        "responses": {
                            "200": {"description": "Success"}
                        }
                    }
                },
                "/health": {
                    "get": {
                        "responses": {
                            "200": {"description": "OK"}
                        }
                    }
                }
            }
        }"#;
    let result = validate_spec(spec);
    assert!(result.is_ok());
    let api = result.unwrap();
    assert_eq!(api.endpoints, 2);
}

#[test]
fn test_validate_spec_invalid_json() {
    let result = validate_spec("{ not valid json }");
    assert!(result.is_err());
    assert!(result.unwrap_err().contains("Failed to parse"));
}

#[test]
fn test_validate_spec_missing_required_fields() {
    let spec = r#"{
            "openapi": "3.0.0"
        }"#;
    let result = validate_spec(spec);
    assert!(result.is_err());
}

#[test]
fn test_validate_spec_empty_file() {
    let result = validate_spec("");
    assert!(result.is_err());
}

#[test]
fn test_validate_spec_complex() {
    let spec = r#"{
            "openapi": "3.0.0",
            "info": {
                "title": "Complex API",
                "version": "3.0.0",
                "description": "A complex API specification"
            },
            "servers": [
                {"url": "https://api.example.com/v1"}
            ],
            "paths": {
                "/users": {
                    "get": {
                        "summary": "List users",
                        "responses": {
                            "200": {
                                "description": "Success",
                                "content": {
                                    "application/json": {
                                        "schema": {
                                            "type": "array",
                                            "items": {"type": "object"}
                                        }
                                    }
                                }
                            }
                        }
                    },
                    "post": {
                        "summary": "Create user",
                        "requestBody": {
                            "content": {
                                "application/json": {
                                    "schema": {"type": "object"}
                                }
                            }
                        },
                        "responses": {
                            "201": {"description": "Created"}
                        }
                    }
                },
                "/users/{id}": {
                    "get": {
                        "summary": "Get user by ID",
                        "parameters": [
                            {
                                "name": "id",
                                "in": "path",
                                "required": true,
                                "schema": {"type": "string"}
                            }
                        ],
                        "responses": {
                            "200": {"description": "Success"},
                            "404": {"description": "Not found"}
                        }
                    }
                }
            }
        }"#;
    let result = validate_spec(spec);
    assert!(result.is_ok());
    let api = result.unwrap();
    assert_eq!(api.title, "Complex API");
    assert_eq!(api.endpoints, 2);
}

#[test]
fn test_validate_spec_with_components() {
    let spec = r#"{
            "openapi": "3.0.0",
            "info": {
                "title": "API with Components",
                "version": "1.0.0"
            },
            "paths": {},
            "components": {
                "schemas": {
                    "User": {
                        "type": "object",
                        "properties": {
                            "id": {"type": "integer"},
                            "name": {"type": "string"}
                        }
                    }
                },
                "securitySchemes": {
                    "bearerAuth": {
                        "type": "http",
                        "scheme": "bearer"
                    }
                }
            }
        }"#;
    assert!(validate_spec(spec).is_ok());
}

#[test]
fn test_validate_spec_version_formats() {
    let spec_300 = r#"{
            "openapi": "3.0.0",
            "info": {"title": "API", "version": "1.0.0"},
            "paths": {}
        }"#;
    let spec_301 = r#"{
            "openapi": "3.0.1",
            "info": {"title": "API", "version": "1.0.0"},
            "paths": {}
        }"#;
    let spec_303 = r#"{
            "openapi": "3.0.3",
            "info": {"title": "API", "version": "1.0.0"},
            "paths": {}
        }"#;
    assert!(validate_spec(spec_300).is_ok());
    assert!(validate_spec(spec_301).is_ok());
    assert!(validate_spec(spec_303).is_ok());
}

#[test]
fn test_validate_spec_unicode_content() {
    let spec = r#"{
            "openapi": "3.0.0",
            "info": {
                "title": "国际化 API 🌍",
                "version": "1.0.0",
                "description": "API с описанием на разных языках"
            },
            "paths": {
                "/用户": {
                    "get": {
                        "summary": "获取用户列表",
                        "responses": {
                            "200": {"description": "成功"}
                        }
                    }
                }
            }
        }"#;
    let result = validate_spec(spec);
    assert!(result.is_ok());
    let api = result.unwrap();
    assert!(api.title.contains("国际化"));
}

#[test]
fn test_validate_spec_extra_fields() {
    let spec = r#"{
            "openapi": "3.0.0",
            "info": {
                "title": "API",
                "version": "1.0.0",
                "x-custom-field": "should be ignored"
            },
            "paths": {},
            "x-another-extension": {"key": "value"}
        }"#;
    assert!(validate_spec(spec).is_ok());
}

#[test]
fn test_validate_spec_all_http_methods() {
    let spec = r#"{
            "openapi": "3.0.0",
            "info": {"title": "API", "version": "1.0.0"},
            "paths": {
                "/resource": {
                    "get": {"responses": {"200": {"description": "OK"}}},
                    "post": {"responses": {"201": {"description": "Created"}}},
                    "put": {"responses": {"200": {"description": "Updated"}}},
                    "delete": {"responses": {"204": {"description": "Deleted"}}},
                    "patch": {"responses": {"200": {"description": "Patched"}}},
                    "options": {"responses": {"200": {"description": "Options"}}},
                    "head": {"responses": {"200": {"description": "Head"}}}
                }
            }
        }"#;
    assert!(validate_spec(spec).is_ok());
}

#[test]
fn test_validate_spec_with_tags() {
    let spec = r#"{
            "openapi": "3.0.0",
            "info": {"title": "API", "version": "1.0.0"},
            "tags": [
                {"name": "users", "description": "User operations"},
                {"name": "items", "description": "Item operations"}
            ],
            "paths": {
                "/users": {
                    "get": {
                        "tags": ["users"],
                        "responses": {"200": {"description": "OK"}}
                    }
                }
            }
        }"#;
    assert!(validate_spec(spec).is_ok());
}

#[test]
fn test_plan_reads_reordered_and_extra_fields() {
    // Field order and unknown fields do not matter when reading.
    let text = "{\"isE2E\":false,\"apiVersion\":\"2.0\",\"note\":\"extra\",\"tests\":[{\"path\":\"/a\",\"assertions\":[],\"name\":\"A\",\"method\":\"GET\",\"extra\":null}],\"apiTitle\":\"Reordered\"}";
    let back = plan_from_text(text).expect("reordered plan must read back");
    assert_eq!(back.api_title, "Reordered");
    assert_eq!(back.api_version, "2.0");
    assert!(!back.e2e);
    assert_eq!(back.tests.len(), 1);
    assert_eq!(back.tests[0].name, "A");
    assert_eq!(back.tests[0].method, "GET");
    assert_eq!(back.tests[0].path, "/a");
}

#[test]
fn test_plan_reads_unicode_escapes() {
    // \uXXXX escapes, as other JSON writers produce them, are decoded.
    let text = "{\"apiTitle\":\"\\u0041\\u00e9\\u001b\",\"apiVersion\":\"1\",\"isE2E\":false,\"tests\":[]}";
    let back = plan_from_text(text).expect("escaped plan must read back");
    assert_eq!(back.api_title, "A\u{e9}\u{1b}");
    // A lone surrogate escape is rejected, not mangled.
    assert!(plan_from_text("{\"apiTitle\":\"\\ud800\",\"apiVersion\":\"1\",\"isE2E\":false,\"tests\":[]}").is_none());
}

#[test]
fn test_plan_round_trip_control_characters() {
    // Control characters are written as \u00XX escapes and read back.
    let tests = vec![TestEntry {
        name: "bell\u{07}name".to_string(),
        method: "GET".to_string(),
        path: "/x".to_string(),
        assertions: vec![],
    }];
    let plan = TestPlan::new_unit("T\u{1b}".to_string(), "1".to_string(), tests);
    let text = plan_to_text(&plan);
    assert!(!text.contains('\u{07}'));
    assert!(text.contains("\\u0007"));
    let back = plan_from_text(&text).expect("control characters must round trip");
    assert_eq!(back.api_title, "T\u{1b}");
    assert_eq!(back.tests[0].name, "bell\u{07}name");
}
