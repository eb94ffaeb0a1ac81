//! Discover installed LSP servers on the system.

use vstd::prelude::*;

use crate::registry;
use crate::registry::{clone_texts, BinaryFinder};
use crate::text;
use crate::text::{read_lossy, trim};
use crate::types::LanguageId;

verus! {

/// A discovered LSP server that can be started.
#[derive(Debug, PartialEq, Eq)]
pub struct DiscoveredServer {
    pub language: LanguageId,
    pub command: String,
    pub args: Vec<String>,
    pub version: Option<String>,
}

/// What a [`DiscoveredServer`] says.
pub struct DiscoveredView {
    pub language: LanguageId,
    pub command: Seq<char>,
    pub args: Seq<Seq<char>>,
    pub version: Option<Seq<char>>,
}

impl DeepView for DiscoveredServer {
    type V = DiscoveredView;

    open spec fn deep_view(&self) -> DiscoveredView {
        DiscoveredView {
            language: self.language,
            command: self.command@,
            args: self.args.deep_view(),
            version: self.version.deep_view(),
        }
    }
}

/// A known LSP server configuration: the binaries to search for, the first one
/// found counting, and the arguments to launch it with.
#[derive(Debug)]
pub struct KnownServer {
    pub language: LanguageId,
    pub binaries: Vec<String>,
    pub args: Vec<String>,
}

/// What a [`KnownServer`] says.
pub struct KnownView {
    pub language: LanguageId,
    pub binaries: Seq<Seq<char>>,
    pub args: Seq<Seq<char>>,
}

impl DeepView for KnownServer {
    type V = KnownView;

    open spec fn deep_view(&self) -> KnownView {
        KnownView {
            language: self.language,
            binaries: self.binaries.deep_view(),
            args: self.args.deep_view(),
        }
    }
}

/// Known LSP server configurations per language, in order.
pub open spec fn known() -> Seq<KnownView> {
    seq![
        KnownView {
            language: LanguageId::Rust,
            binaries: seq!["rust-analyzer"@],
            args: Seq::empty(),
        },
        KnownView {
            language: LanguageId::Python,
            binaries: seq!["pyright-langserver"@, "pylsp"@],
            args: seq!["--stdio"@],
        },
        KnownView {
            language: LanguageId::TypeScript,
            binaries: seq!["typescript-language-server"@, "vtsls"@],
            args: seq!["--stdio"@],
        },
        KnownView {
            language: LanguageId::JavaScript,
            binaries: seq!["typescript-language-server"@],
            args: seq!["--stdio"@],
        },
        KnownView {
            language: LanguageId::Go,
            binaries: seq!["gopls"@],
            args: seq!["serve"@],
        },
        KnownView {
            language: LanguageId::Java,
            binaries: seq!["jdtls"@],
            args: Seq::empty(),
        },
        KnownView { language: LanguageId::C, binaries: seq!["clangd"@], args: Seq::empty() },
        KnownView { language: LanguageId::Cpp, binaries: seq!["clangd"@], args: Seq::empty() },
    ]
}

/// A known server with one binary or two, and one argument or none.
fn known_server(
    language: LanguageId,
    binary: &str,
    second: Option<&str>,
    arg: Option<&str>,
) -> (r: KnownServer)
    ensures
        r.deep_view() == (KnownView {
            language,
            binaries: match second {
                Some(second) => seq![binary@, second@],
                None => seq![binary@],
            },
            args: match arg {
                Some(arg) => seq![arg@],
                None => Seq::empty(),
            },
        }),
{
    let mut binaries: Vec<String> = Vec::new();
    binaries.push(binary.to_owned());
    assert(second is None ==> binaries.deep_view() =~= seq![binary@]);
    if let Some(second) = second {
        binaries.push(second.to_owned());
        assert(binaries.deep_view() =~= seq![binary@, second@]);
    }
    let mut args: Vec<String> = Vec::new();
    assert(args.deep_view() =~= Seq::<Seq<char>>::empty());
    if let Some(arg) = arg {
        args.push(arg.to_owned());
        assert(args.deep_view() =~= seq![arg@]);
    }
    KnownServer { language, binaries, args }
}

/// Known LSP server configurations per language.
pub fn known_servers() -> (r: Vec<KnownServer>)
    ensures
        r.deep_view() == known(),
{
    let r = vec![
        known_server(LanguageId::Rust, "rust-analyzer", None, None),
        known_server(LanguageId::Python, "pyright-langserver", Some("pylsp"), Some("--stdio")),
        known_server(
            LanguageId::TypeScript,
            "typescript-language-server",
            Some("vtsls"),
            Some("--stdio"),
        ),
        known_server(
            LanguageId::JavaScript,
            "typescript-language-server",
            None,
            Some("--stdio"),
        ),
        known_server(LanguageId::Go, "gopls", None, Some("serve")),
        known_server(LanguageId::Java, "jdtls", None, None),
        known_server(LanguageId::C, "clangd", None, None),
        known_server(LanguageId::Cpp, "clangd", None, None),
    ];
    assert(r.deep_view() =~= known());
    r
}

/// A binary that was found: its command and its version.
#[derive(Debug)]
pub struct FoundBinary {
    pub command: String,
    pub version: Option<String>,
}

/// What a [`FoundBinary`] says.
pub struct BinaryView {
    pub command: Seq<char>,
    pub version: Option<Seq<char>>,
}

impl DeepView for FoundBinary {
    type V = BinaryView;

    open spec fn deep_view(&self) -> BinaryView {
        BinaryView { command: self.command@, version: self.version.deep_view() }
    }
}

/// Whether a search for a server's binaries that came to `found` asked for them
/// in order and stopped at the first hit.
pub open spec fn is_binary_search<F: BinaryFinder>(
    finder: &F,
    binaries: Seq<Seq<char>>,
    found: Option<BinaryView>,
) -> bool {
    match found {
        None => registry::none_found(finder, binaries, binaries.len() as int),
        Some(hit) => {
            &&& exists|j: int|
                {
                    &&& 0 <= j < binaries.len()
                    &&& registry::none_found(finder, binaries, j)
                    &&& registry::looked_up(finder, #[trigger] binaries[j], Some(hit.command))
                }
            &&& registry::versioned(finder, hit.command, hit.version)
        },
    }
}

/// The servers that searches for the first `n` known ones come to.
pub open spec fn discovered(found: Seq<Option<BinaryView>>, n: int) -> Seq<DiscoveredView>
    decreases n,
{
    if n <= 0 {
        Seq::empty()
    } else {
        let server = known()[n - 1];
        match found[n - 1] {
            Some(hit) => discovered(found, n - 1).push(
                DiscoveredView {
                    language: server.language,
                    command: hit.command,
                    args: server.args,
                    version: hit.version,
                },
            ),
            None => discovered(found, n - 1),
        }
    }
}

/// The servers that searches for the known ones come to: those with a binary.
pub fn servers_found(found: Vec<Option<FoundBinary>>) -> (r: Vec<DiscoveredServer>)
    requires
        found@.len() == known().len(),
    ensures
        r.deep_view() == discovered(found.deep_view(), known().len() as int),
{
    let servers = known_servers();
    let ghost all = known();
    let ghost views = found.deep_view();
    let mut r: Vec<DiscoveredServer> = Vec::new();
    assert(r.deep_view() =~= Seq::<DiscoveredView>::empty());
    let n: usize = servers.len();
    let mut i: usize = 0;
    while i < n
        invariant
            i <= n == all.len() == servers@.len() == found@.len(),
            all == known(),
            servers.deep_view() == all,
            views == found.deep_view(),
            r.deep_view() == discovered(views, i as int),
        decreases n - i,
    {
        assert(all[i as int] == servers@[i as int].deep_view());
        assert(views[i as int] == found@[i as int].deep_view());
        if let Some(hit) = &found[i] {
            let ghost before = r.deep_view();
            let server = DiscoveredServer {
                language: servers[i].language,
                command: hit.command.clone(),
                args: clone_texts(&servers[i].args),
                version: hit.version.clone(),
            };
            r.push(server);
            assert(r.deep_view() =~= before.push(server.deep_view()));
        }
        i += 1;
    }
    r
}

/// Search for a server's binaries, the first one found counting.
fn search<F: BinaryFinder>(finder: &F, binaries: &Vec<String>) -> (r: Option<FoundBinary>)
    ensures
        is_binary_search(finder, binaries.deep_view(), r.deep_view()),
{
    let ghost views = binaries.deep_view();
    let mut j: usize = 0;
    while j < binaries.len()
        invariant
            j <= binaries@.len(),
            views == binaries.deep_view(),
            registry::none_found(finder, views, j as int),
        decreases binaries@.len() - j,
    {
        assert(views[j as int] == binaries@[j as int]@);
        let answer = finder.find_on_path(binaries[j].as_str());
        assert(registry::looked_up(finder, views[j as int], answer.deep_view()));
        if let Some(command) = answer {
            let version = finder.probe_version(command.as_str());
            assert(registry::versioned(finder, command@, version.deep_view()));
            return Some(FoundBinary { command, version });
        }
        j += 1;
    }
    None
}

/// Discover which LSP servers are installed, by what a finder answers. A language
/// of which no binary is found is left out.
pub fn discover_servers<F: BinaryFinder>(finder: &F) -> (r: Vec<DiscoveredServer>)
    ensures
        exists|found: Seq<Option<BinaryView>>|
            {
                &&& found.len() == known().len()
                &&& forall|i: int|
                    0 <= i < found.len() ==> is_binary_search(
                        finder,
                        known()[i].binaries,
                        #[trigger] found[i],
                    )
                &&& r.deep_view() == #[trigger] discovered(found, known().len() as int)
            },
{
    let servers = known_servers();
    let ghost all = known();
    let mut found: Vec<Option<FoundBinary>> = Vec::new();
    let n: usize = servers.len();
    let mut i: usize = 0;
    while i < n
        invariant
            i <= n == all.len() == servers@.len(),
            servers.deep_view() == all,
            found@.len() == i,
            forall|k: int|
                0 <= k < i ==> is_binary_search(
                    finder,
                    all[k].binaries,
                    (#[trigger] found@[k]).deep_view(),
                ),
        decreases n - i,
    {
        assert(all[i as int] == servers@[i as int].deep_view());
        found.push(search(finder, &servers[i].binaries));
        i += 1;
    }
    let ghost views = found.deep_view();
    assert forall|k: int| 0 <= k < views.len() implies is_binary_search(
        finder,
        known()[k].binaries,
        #[trigger] views[k],
    ) by {
        assert(views[k] == found@[k].deep_view());
    }
    servers_found(found)
}

/// The version that a server's `--version` gives: the trimmed output of a run
/// that succeeded.
pub fn version_from_output(success: bool, stdout: &Vec<u8>) -> (r: Option<String>)
    ensures
        r.deep_view() == if success {
            Some(text::trimmed(text::lossy(stdout@)))
        } else {
            None
        },
{
    if success {
        Some(trim(read_lossy(stdout).as_str()))
    } else {
        None
    }
}

// ── What discovery promises ─────────────────────────────────────────────

/// Whether a search came to a binary.
pub open spec fn is_hit(found: Seq<Option<BinaryView>>) -> spec_fn(int) -> bool {
    |i: int| found[i] is Some
}

/// The numbers below `n` for which a search came to a binary, in order.
pub open spec fn hits(found: Seq<Option<BinaryView>>, n: nat) -> Seq<int> {
    Seq::new(n, |i: int| i).filter(is_hit(found))
}

proof fn lemma_discovered(found: Seq<Option<BinaryView>>, n: int)
    requires
        0 <= n <= found.len(),
    ensures
        discovered(found, n).len() == hits(found, n as nat).len(),
        forall|k: int|
            0 <= k < hits(found, n as nat).len() ==> {
                let at = hits(found, n as nat)[k];
                let server = #[trigger] discovered(found, n)[k];
                &&& 0 <= at < n
                &&& found[at] is Some
                &&& server.language == known()[at].language
                &&& server.args == known()[at].args
                &&& server.command == found[at]->0.command
                &&& server.version == found[at]->0.version
            },
    decreases n,
{
    reveal(Seq::filter);
    if n > 0 {
        lemma_discovered(found, n - 1);
        let numbers = Seq::new(n as nat, |i: int| i);
        assert(numbers.drop_last() =~= Seq::new((n - 1) as nat, |i: int| i));
        assert(numbers.last() == n - 1);
    }
}

/// Every known server of which a binary was found is listed, with its language, the
/// command and the version that were found, and the arguments it is launched with; in
/// the order in which they are known, and no other.
pub proof fn every_server_found_is_listed(found: Seq<Option<BinaryView>>)
    requires
        found.len() == known().len(),
    ensures
        ({
            let at = hits(found, found.len());
            let servers = discovered(found, known().len() as int);
            &&& servers.len() == at.len()
            &&& forall|k: int|
                0 <= k < at.len() ==> {
                    &&& 0 <= at[k] < found.len()
                    &&& found[at[k]] is Some
                    &&& (#[trigger] servers[k]).language == known()[at[k]].language
                    &&& servers[k].args == known()[at[k]].args
                    &&& servers[k].command == found[at[k]]->0.command
                    &&& servers[k].version == found[at[k]]->0.version
                }
        }),
{
    lemma_discovered(found, found.len() as int);
}

/// Discovery and the registry agree: the languages are the ones with built-in
/// candidates, each one's binaries are those of its candidates, in their order, and its
/// arguments are those of the first.
pub proof fn discovery_knows_the_built_in_candidates(i: int)
    requires
        0 <= i < known().len(),
    ensures
        known().len() == registry::default_languages().len(),
        ({
            let server = known()[i];
            let specs = registry::default_specs(server.language);
            &&& server.language == registry::default_languages()[i]
            &&& server.binaries.len() == specs.len()
            &&& forall|k: int|
                0 <= k < specs.len() ==> #[trigger] specs[k].binaries == seq![server.binaries[k]]
            &&& specs.len() > 0
            &&& server.args == specs[0].args
        }),
{
}

} // verus!
