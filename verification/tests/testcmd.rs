use agent_witness::testcmd::{classify_command, TestKind};

#[test]
fn cargo_subcommands_classify_by_kind() {
    assert_eq!(
        classify_command("cargo test --workspace"),
        Some(TestKind::Test)
    );
    assert_eq!(classify_command("cargo nextest run"), Some(TestKind::Test));
    assert_eq!(
        classify_command("cargo build --release"),
        Some(TestKind::Build)
    );
    assert_eq!(classify_command("cargo check"), Some(TestKind::Build));
    assert_eq!(
        classify_command("cargo clippy -- -D warnings"),
        Some(TestKind::Lint)
    );
    assert_eq!(classify_command("cargo fmt --check"), Some(TestKind::Lint));
    assert_eq!(classify_command("cargo run"), None);
}

#[test]
fn just_recipes_classify_by_convention() {
    assert_eq!(classify_command("just verify"), Some(TestKind::Test));
    assert_eq!(classify_command("just test"), Some(TestKind::Test));
    assert_eq!(classify_command("just check"), Some(TestKind::Lint));
    assert_eq!(classify_command("just build"), Some(TestKind::Build));
    assert_eq!(classify_command("just release"), None);
}

#[test]
fn node_scripts_with_and_without_run() {
    assert_eq!(classify_command("npm test"), Some(TestKind::Test));
    assert_eq!(classify_command("npm run test"), Some(TestKind::Test));
    assert_eq!(classify_command("pnpm run build"), Some(TestKind::Build));
    assert_eq!(classify_command("yarn lint"), Some(TestKind::Lint));
    assert_eq!(classify_command("npm run dev"), None);
    assert_eq!(classify_command("npm install"), None);
}

#[test]
fn standalone_runners_classify() {
    for cmd in ["pytest -q", "jest", "vitest run", "go test ./...", "rspec"] {
        assert_eq!(classify_command(cmd), Some(TestKind::Test), "for `{cmd}`");
    }
    assert_eq!(classify_command("tsc --noEmit"), Some(TestKind::Build));
    assert_eq!(classify_command("eslint ."), Some(TestKind::Lint));
    assert_eq!(classify_command("ruff check ."), Some(TestKind::Lint));
}

#[test]
fn bare_make_is_build_but_make_test_is_test() {
    assert_eq!(classify_command("make"), Some(TestKind::Build));
    assert_eq!(classify_command("make build"), Some(TestKind::Build));
    assert_eq!(classify_command("make test"), Some(TestKind::Test));
    assert_eq!(classify_command("make lint"), Some(TestKind::Lint));
}

#[test]
fn chained_command_takes_strongest_kind() {
    // Build + test in one line → test wins (the headline "did tests run?").
    assert_eq!(
        classify_command("cargo build && cargo test"),
        Some(TestKind::Test)
    );
    // cd prefix does not suppress the test segment (anchored per segment).
    assert_eq!(
        classify_command("cd crates/core && cargo test"),
        Some(TestKind::Test)
    );
    // Lint + build → build outranks lint.
    assert_eq!(
        classify_command("cargo clippy && cargo build"),
        Some(TestKind::Build)
    );
}

#[test]
fn quoted_or_echoed_command_does_not_classify() {
    // Leading token is `echo`, so the inner text is not anchored.
    assert_eq!(classify_command("echo \"cargo test\""), None);
}

#[test]
fn leading_env_assignments_are_skipped_before_anchoring() {
    // The regression from dogfooding: env-prefixed test runners.
    assert_eq!(
        classify_command("UPDATE_GOLDEN=1 cargo nextest run"),
        Some(TestKind::Test)
    );
    assert_eq!(
        classify_command("RUST_LOG=debug cargo test"),
        Some(TestKind::Test)
    );
    assert_eq!(classify_command("CI=1 npm test"), Some(TestKind::Test));
    // Multiple assignments, and the kind still comes from the real command.
    assert_eq!(
        classify_command("FOO=1 BAR=2 cargo build"),
        Some(TestKind::Build)
    );
    // Env prefix inside a later segment of a chain.
    assert_eq!(
        classify_command("cd crates && RUSTFLAGS=-D cargo test"),
        Some(TestKind::Test)
    );
}

#[test]
fn a_bare_env_assignment_is_not_a_command() {
    // No command word after the assignment(s) → nothing to classify.
    assert_eq!(classify_command("FOO=bar"), None);
    assert_eq!(classify_command("FOO=1 BAR=2"), None);
    // The echo protection still holds even with an env prefix.
    assert_eq!(classify_command("DEBUG=1 echo \"cargo test\""), None);
}

#[test]
fn unrelated_commands_do_not_classify() {
    for cmd in [
        "ls -la",
        "git status",
        "grep -r foo .",
        "cat README.md",
        "cd src",
    ] {
        assert_eq!(classify_command(cmd), None, "for `{cmd}`");
    }
}
