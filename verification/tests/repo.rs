use autodocs::repo::{sync_command, SyncCommand};

#[test]
fn existing_checkout_is_pulled() {
    let command = sync_command(true, "https://example.org/t/docs.git", "main", "./workspace/docs");
    assert_eq!(command, SyncCommand::Pull { directory: "./workspace/docs".to_string() });
    assert_eq!(command.arguments(), vec!["pull".to_string()]);
    assert_eq!(command.working_directory(), Some("./workspace/docs".to_string()));
}

#[test]
fn missing_checkout_is_cloned_at_the_branch() {
    let command = sync_command(false, "https://example.org/t/docs.git", "dev", "./workspace/docs");
    assert_eq!(
        command,
        SyncCommand::Clone {
            branch: "dev".to_string(),
            repo: "https://example.org/t/docs.git".to_string(),
            directory: "./workspace/docs".to_string(),
        }
    );
    assert_eq!(
        command.arguments(),
        vec![
            "clone".to_string(),
            "--branch".to_string(),
            "dev".to_string(),
            "https://example.org/t/docs.git".to_string(),
            "./workspace/docs".to_string(),
        ]
    );
    assert_eq!(command.working_directory(), None);
}
