use hux_core::scheme::OptionDecl;
use hux_core::settings::{
    host_option_roles, runtime_option_roles, scheme_config_roles, scheme_option_roles, DeclError,
    OptionKeys, ROLE_ALLOW_DUPLICATE_SINGLE, ROLE_ASCII_PUNCT, ROLE_DIGIT_SELECT, ROLE_EARLY_COMMIT,
    ROLE_EARLY_COMMIT_TO_PREEDIT, ROLE_FULL_SHAPE,
};

fn declarations() -> Vec<OptionDecl> {
    vec![
        OptionDecl {
            role: ROLE_EARLY_COMMIT,
            key: "scheme_early_commit",
        },
        OptionDecl {
            role: ROLE_EARLY_COMMIT_TO_PREEDIT,
            key: "scheme_early_commit_to_preedit",
        },
        OptionDecl {
            role: ROLE_ALLOW_DUPLICATE_SINGLE,
            key: "scheme_allow_duplicate_single",
        },
        OptionDecl {
            role: ROLE_DIGIT_SELECT,
            key: "scheme_digit_select",
        },
    ]
}

#[test]
fn role_tables_stay_disjoint_and_ordered() {
    for table in [
        scheme_option_roles().as_slice(),
        host_option_roles().as_slice(),
        runtime_option_roles().as_slice(),
        scheme_config_roles().as_slice(),
    ] {
        let mut seen = Vec::new();
        for role in table {
            assert!(!seen.contains(role), "角色 {role} 在同一清单中重复");
            seen.push(*role);
        }
    }
    for role in host_option_roles().as_slice() {
        assert!(
            !scheme_option_roles().contains(role),
            "宿主标准项 {role} 不应出现在方案声明角色里"
        );
    }
    let positions: Vec<usize> = scheme_option_roles()
        .iter()
        .map(|role| {
            runtime_option_roles()
                .iter()
                .position(|item| item == role)
                .unwrap_or_else(|| panic!("运行时角色缺少方案开关 {role}"))
        })
        .collect();
    assert!(
        positions.windows(2).all(|pair| pair[0] < pair[1]),
        "方案开关在运行时角色序中被重排：{:?}",
        scheme_option_roles()
    );
}

#[test]
fn resolve_needs_every_scheme_role() {
    let keys = OptionKeys::resolve(&declarations()).expect("完整声明");
    assert_eq!(keys.key(ROLE_EARLY_COMMIT), Some("scheme_early_commit"));
    assert_eq!(keys.key(ROLE_FULL_SHAPE), Some("full_shape"));
    assert_eq!(keys.key(ROLE_ASCII_PUNCT), Some("ascii_punct"));
    assert_eq!(keys.key("not_a_role"), None);

    let mut incomplete = declarations();
    incomplete.retain(|decl| decl.role != ROLE_DIGIT_SELECT);
    assert_eq!(
        OptionKeys::resolve(&incomplete),
        Err(DeclError::Missing(vec![ROLE_DIGIT_SELECT]))
    );
    assert_eq!(
        OptionKeys::resolve(&[]),
        Err(DeclError::Missing(scheme_option_roles()))
    );
}

#[test]
fn resolve_rejects_duplicate_and_empty_declarations() {
    let mut duplicated = declarations();
    duplicated.push(OptionDecl {
        role: ROLE_EARLY_COMMIT,
        key: "scheme_early_commit_again",
    });
    assert_eq!(
        OptionKeys::resolve(&duplicated),
        Err(DeclError::Duplicate(ROLE_EARLY_COMMIT))
    );

    let mut hijacked = declarations();
    hijacked.push(OptionDecl {
        role: ROLE_FULL_SHAPE,
        key: "scheme_full_shape",
    });
    assert_eq!(
        OptionKeys::resolve(&hijacked),
        Err(DeclError::Duplicate(ROLE_FULL_SHAPE))
    );

    let mut empty = declarations();
    empty.push(OptionDecl { role: "", key: "x" });
    assert_eq!(OptionKeys::resolve(&empty), Err(DeclError::Empty));

    assert_eq!(
        DeclError::Missing(vec![ROLE_DIGIT_SELECT]).to_string(),
        "方案未声明角色：digit_select"
    );
    assert_eq!(
        DeclError::Duplicate(ROLE_DIGIT_SELECT).to_string(),
        "角色重复声明：digit_select"
    );
}
