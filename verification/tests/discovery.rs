use kin_lsp::adapters::clangd::ClangdAdapter;
use kin_lsp::adapters::go::GoplsAdapter;
use kin_lsp::adapters::java::JdtlsAdapter;
use kin_lsp::adapters::python::PyrightAdapter;
use kin_lsp::adapters::rust_analyzer::RustAnalyzerAdapter;
use kin_lsp::adapters::typescript::TypeScriptAdapter;
use kin_lsp::adapters::LspAdapter;
use kin_lsp::discovery::{discover_servers, known_servers, version_from_output};
use kin_lsp::json::render;
use kin_lsp::registry::BinaryFinder;
use kin_lsp::types::LanguageId;

struct Installed(Vec<&'static str>);

impl BinaryFinder for Installed {
    fn find_on_path(&self, binary: &str) -> Option<String> {
        self.0
            .iter()
            .find(|name| **name == binary)
            .map(|name| format!("/bin/{name}"))
    }
    fn probe_version(&self, command: &str) -> Option<String> {
        Some(format!("{command} 1"))
    }
}

#[test]
fn discover_finds_at_least_one_server() {
    let servers = discover_servers(&Installed(vec!["pylsp", "clangd"]));
    for server in &servers {
        assert!(!server.command.is_empty());
    }
    let languages: Vec<_> = servers.iter().map(|s| s.language).collect();
    assert_eq!(
        languages,
        vec![LanguageId::Python, LanguageId::C, LanguageId::Cpp]
    );
    assert_eq!(servers[0].command, "/bin/pylsp");
    assert_eq!(servers[0].args, vec!["--stdio"]);
    assert_eq!(servers[0].version.as_deref(), Some("/bin/pylsp 1"));
    assert!(discover_servers(&Installed(vec![])).is_empty());
}

#[test]
fn the_first_known_binary_wins() {
    let servers = discover_servers(&Installed(vec!["vtsls", "typescript-language-server"]));
    let commands: Vec<&str> = servers.iter().map(|s| s.command.as_str()).collect();
    assert_eq!(
        commands,
        vec![
            "/bin/typescript-language-server",
            "/bin/typescript-language-server"
        ]
    );
    assert_eq!(known_servers().len(), 8);
}

#[test]
fn a_version_is_the_trimmed_output_of_a_run_that_succeeded() {
    assert_eq!(
        version_from_output(true, &b"rust-analyzer 1.79.0\n".to_vec()).as_deref(),
        Some("rust-analyzer 1.79.0")
    );
    assert_eq!(
        version_from_output(true, &vec![b' ', 0xff, b'1', b'\n']).as_deref(),
        Some("\u{fffd}1")
    );
    assert_eq!(version_from_output(false, &b"usage".to_vec()), None);
}

#[test]
fn adapters_start_their_servers() {
    let adapters: Vec<Box<dyn LspAdapter>> = vec![
        Box::new(RustAnalyzerAdapter),
        Box::new(PyrightAdapter),
        Box::new(TypeScriptAdapter),
        Box::new(GoplsAdapter),
        Box::new(JdtlsAdapter),
        Box::new(ClangdAdapter),
    ];
    let commands: Vec<&str> = adapters.iter().map(|a| a.server_command()).collect();
    assert_eq!(
        commands,
        vec![
            "rust-analyzer",
            "pyright-langserver",
            "typescript-language-server",
            "gopls",
            "jdtls",
            "clangd"
        ]
    );
    let times: Vec<u32> = adapters
        .iter()
        .map(|a| a.estimated_index_time_secs())
        .collect();
    assert_eq!(times, vec![30, 15, 10, 15, 20, 20]);
    for adapter in &adapters {
        assert!(adapter.requires_workspace_indexing());
        assert!(!adapter.file_extensions().is_empty());
    }
    assert_eq!(adapters[0].server_args(), Vec::<String>::new());
    assert_eq!(adapters[3].server_args(), vec!["serve"]);
    assert_eq!(adapters[5].language_id(), LanguageId::C);
    assert_eq!(
        adapters[5].file_extensions(),
        &["c", "h", "cpp", "hpp", "cc", "cxx"]
    );
}

#[test]
fn adapters_send_their_options() {
    let options = |adapter: &dyn LspAdapter| {
        adapter
            .initialization_options("/w")
            .map(|options| render(&options))
    };
    assert_eq!(options(&JdtlsAdapter), None);
    assert_eq!(
        options(&PyrightAdapter).as_deref(),
        Some("{\"diagnosticMode\":\"off\",\"pythonPath\":\"python3\"}")
    );
    assert_eq!(
        options(&GoplsAdapter).as_deref(),
        Some("{\"analyses\":{\"shadow\":false,\"unusedparams\":false},\"diagnosticsDelay\":\"500ms\"}")
    );
    assert_eq!(
        options(&RustAnalyzerAdapter).as_deref(),
        Some("{\"cargo\":{\"buildScripts\":{\"enable\":false},\"sysroot\":\"discover\"},\"checkOnSave\":false,\"diagnostics\":{\"enable\":false},\"procMacro\":{\"enable\":false}}")
    );
}
