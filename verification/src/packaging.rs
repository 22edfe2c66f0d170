//! Build automation: what a command line asks for, the platforms packages ship for, and the
//! metadata a game engine wants beside a native library.

use vstd::prelude::*;
use vstd::string::*;

use crate::text::{joined, same_text};

verus! {

/// What a command line asks for.
#[derive(Debug)]
pub enum Task {
    /// Regenerate the bindings.
    Bindings,
    /// Build the native library, then run the sandbox against it.
    Sandbox {
        /// With optimisations.
        release: bool,
    },
    /// Build the native library, then run the binding smoke test.
    TestCsharp {
        /// With optimisations.
        release: bool,
    },
    /// Package release builds.
    Dist {
        /// For this machine's platform only.
        host_only: bool,
    },
    /// Explain the commands.
    Help,
    /// There is no such command.
    Unknown(String),
}

/// Whether one of `args` is `flag`.
pub open spec fn has_flag(args: Seq<String>, flag: Seq<char>) -> bool {
    exists|i: int| 0 <= i < args.len() && (#[trigger] args[i])@ == flag
}

/// Whether `task` is what `args` asks for.
pub open spec fn asks_for(args: Seq<String>, task: Task) -> bool {
    let release = has_flag(args, "--release"@);
    if args.len() == 0 {
        task == Task::Help
    } else {
        let first = args[0]@;
        if first == "bindings"@ {
            task == Task::Bindings
        } else if first == "sandbox"@ {
            task == Task::Sandbox { release }
        } else if first == "test-csharp"@ {
            task == Task::TestCsharp { release }
        } else if first == "dist"@ {
            task == Task::Dist { host_only: has_flag(args, "--host"@) }
        } else if first == "help"@ || first == "--help"@ || first == "-h"@ {
            task == Task::Help
        } else {
            task matches Task::Unknown(name) && name@ == first
        }
    }
}

/// Whether one of `args` is `flag`.
fn given(args: &Vec<String>, flag: &str) -> (r: bool)
    ensures
        r == has_flag(args@, flag@),
{
    let mut i: usize = 0;
    while i < args.len()
        invariant
            i <= args.len(),
            forall|j: int| 0 <= j < i ==> (#[trigger] args@[j])@ != flag@,
        decreases args.len() - i,
    {
        if same_text(args[i].as_str(), flag) {
            assert(args@[i as int]@ == flag@);
            return true;
        }
        i += 1;
    }
    false
}

/// What the arguments ask for.
pub fn task_of(args: &Vec<String>) -> (r: Task)
    ensures
        asks_for(args@, r),
{
    let release = given(args, "--release");
    if args.len() == 0 {
        return Task::Help;
    }
    let first = args[0].as_str();
    if same_text(first, "bindings") {
        Task::Bindings
    } else if same_text(first, "sandbox") {
        Task::Sandbox { release }
    } else if same_text(first, "test-csharp") {
        Task::TestCsharp { release }
    } else if same_text(first, "dist") {
        Task::Dist { host_only: given(args, "--host") }
    } else if same_text(first, "help") || same_text(first, "--help") || same_text(first, "-h") {
        Task::Help
    } else {
        Task::Unknown(args[0].clone())
    }
}

/// What precedes the first `.2.` in `s`; all of it, if there is none.
pub open spec fn before_version(s: Seq<char>, from: nat) -> Seq<char>
    decreases s.len() - from,
{
    if from >= s.len() {
        s
    } else if crate::console::occurs_at(s, ".2."@, from as int) {
        s.take(from as int)
    } else {
        before_version(s, from + 1)
    }
}

/// A build target without the C library version it is built against, which is no part of where
/// the build ends up.
pub fn triple(target: &str) -> (r: String)
    ensures
        r@ == before_version(target@, 0),
{
    let chars = crate::text::chars_of(target);
    let mut i: usize = 0;
    proof {
        reveal_strlit(".2.");
    }
    while i < chars.len()
        invariant
            i <= chars.len(),
            chars@ == target@,
            ".2."@ == seq!['.', '2', '.'],
            before_version(target@, 0) == before_version(target@, i as nat),
        decreases chars.len() - i,
    {
        let here = chars.len() - i >= 3 && chars[i] == '.' && chars[i + 1] == '2' && chars[i + 2]
            == '.';
        proof {
            if here {
                assert(target@.subrange(i as int, i + 3) =~= ".2."@);
            } else if crate::console::occurs_at(target@, ".2."@, i as int) {
                let found = target@.subrange(i as int, i + 3);
                assert(found[0] == target@[i as int]);
                assert(found[1] == target@[i + 1]);
                assert(found[2] == target@[i + 2]);
            }
        }
        if here {
            let front = crate::text::slice_of(&chars, 0, i);
            assert(front@ =~= target@.take(i as int));
            return crate::text::text_of(&front);
        }
        i += 1;
    }
    target.to_owned()
}

/// A platform the packages ship a native library for.
#[derive(Debug, Clone, Copy, PartialEq, Eq, Structural)]
pub enum Platform {
    /// Both processors in one universal library.
    MacOs,
    /// 64-bit Linux.
    Linux,
    /// 64-bit Windows.
    Windows,
}

impl Platform {
    /// Every platform.
    pub const ALL: [Platform; 3] = [Platform::MacOs, Platform::Linux, Platform::Windows];

    /// The folder its libraries go to.
    pub open spec fn folder_text(self) -> Seq<char> {
        match self {
            Platform::MacOs => "macos"@,
            Platform::Linux => "linux-x86_64"@,
            Platform::Windows => "windows-x86_64"@,
        }
    }

    /// The folder its libraries go to.
    pub fn folder(self) -> (r: &'static str)
        ensures
            r@ == self.folder_text(),
    {
        match self {
            Platform::MacOs => "macos",
            Platform::Linux => "linux-x86_64",
            Platform::Windows => "windows-x86_64",
        }
    }

    /// What to build. Several builds are merged into one universal library.
    pub fn targets(self) -> (r: Vec<&'static str>)
        ensures
            match self {
                Platform::MacOs => r@.len() == 2 && r@[0]@ == "aarch64-apple-darwin"@ && r@[1]@
                    == "x86_64-apple-darwin"@,
                Platform::Linux => r@.len() == 1 && r@[0]@ == "x86_64-unknown-linux-gnu.2.17"@,
                Platform::Windows => r@.len() == 1 && r@[0]@ == "x86_64-pc-windows-gnu"@,
            },
    {
        match self {
            Platform::MacOs => vec!["aarch64-apple-darwin", "x86_64-apple-darwin"],
            Platform::Linux => vec!["x86_64-unknown-linux-gnu.2.17"],
            Platform::Windows => vec!["x86_64-pc-windows-gnu"],
        }
    }

    /// Whether it is cross-compiled.
    pub fn zig(self) -> (r: bool)
        ensures
            r == (self != Platform::MacOs),
    {
        match self {
            Platform::MacOs => false,
            Platform::Linux => true,
            Platform::Windows => true,
        }
    }

    /// The shared library's file name.
    pub fn file(self) -> (r: &'static str)
        ensures
            r@ == (match self {
                Platform::MacOs => "libemergence.dylib"@,
                Platform::Linux => "libemergence.so"@,
                Platform::Windows => "emergence.dll"@,
            }),
    {
        match self {
            Platform::MacOs => "libemergence.dylib",
            Platform::Linux => "libemergence.so",
            Platform::Windows => "emergence.dll",
        }
    }

    /// The static library's file name.
    pub fn static_file(self) -> (r: &'static str)
        ensures
            r@ == "libemergence.a"@,
    {
        "libemergence.a"
    }

    /// The editor's operating system it loads in.
    pub open spec fn editor_text(self) -> Seq<char> {
        match self {
            Platform::MacOs => "OSX"@,
            Platform::Linux => "Linux"@,
            Platform::Windows => "Windows"@,
        }
    }

    /// The player it ships in.
    pub open spec fn standalone_text(self) -> Seq<char> {
        match self {
            Platform::MacOs => "OSXUniversal"@,
            Platform::Linux => "Linux64"@,
            Platform::Windows => "Win64"@,
        }
    }

    /// The processor it is for.
    pub open spec fn cpu_text(self) -> Seq<char> {
        match self {
            Platform::MacOs => "AnyCPU"@,
            Platform::Linux => "x86_64"@,
            Platform::Windows => "x86_64"@,
        }
    }

    /// The identity of its library's metadata.
    pub open spec fn file_guid_text(self) -> Seq<char> {
        match self {
            Platform::MacOs => "6c1f0a8e2b7d4e9f8a3b5c7d9e1f2a41"@,
            Platform::Linux => "6c1f0a8e2b7d4e9f8a3b5c7d9e1f2a51"@,
            Platform::Windows => "6c1f0a8e2b7d4e9f8a3b5c7d9e1f2a61"@,
        }
    }

    /// The editor's operating system it loads in.
    pub fn editor_os(self) -> (r: &'static str)
        ensures
            r@ == self.editor_text(),
    {
        match self {
            Platform::MacOs => "OSX",
            Platform::Linux => "Linux",
            Platform::Windows => "Windows",
        }
    }

    /// The player it ships in.
    pub fn standalone(self) -> (r: &'static str)
        ensures
            r@ == self.standalone_text(),
    {
        match self {
            Platform::MacOs => "OSXUniversal",
            Platform::Linux => "Linux64",
            Platform::Windows => "Win64",
        }
    }

    /// The processor it is for.
    pub fn cpu(self) -> (r: &'static str)
        ensures
            r@ == self.cpu_text(),
    {
        match self {
            Platform::MacOs => "AnyCPU",
            Platform::Linux => "x86_64",
            Platform::Windows => "x86_64",
        }
    }

    /// The identity of its folder's metadata. It never changes, so references to it keep working.
    pub fn folder_guid(self) -> (r: &'static str)
        ensures
            r@ == (match self {
                Platform::MacOs => "6c1f0a8e2b7d4e9f8a3b5c7d9e1f2a40"@,
                Platform::Linux => "6c1f0a8e2b7d4e9f8a3b5c7d9e1f2a50"@,
                Platform::Windows => "6c1f0a8e2b7d4e9f8a3b5c7d9e1f2a60"@,
            }),
    {
        match self {
            Platform::MacOs => "6c1f0a8e2b7d4e9f8a3b5c7d9e1f2a40",
            Platform::Linux => "6c1f0a8e2b7d4e9f8a3b5c7d9e1f2a50",
            Platform::Windows => "6c1f0a8e2b7d4e9f8a3b5c7d9e1f2a60",
        }
    }

    /// The identity of its library's metadata. It never changes, so references to it keep working.
    pub fn file_guid(self) -> (r: &'static str)
        ensures
            r@ == self.file_guid_text(),
    {
        match self {
            Platform::MacOs => "6c1f0a8e2b7d4e9f8a3b5c7d9e1f2a41",
            Platform::Linux => "6c1f0a8e2b7d4e9f8a3b5c7d9e1f2a51",
            Platform::Windows => "6c1f0a8e2b7d4e9f8a3b5c7d9e1f2a61",
        }
    }

    /// Whether it is packaged: every platform is, unless only the host's is asked for.
    pub fn is_packaged(self, host_only: bool, host: Platform) -> (r: bool)
        ensures
            r == (!host_only || self == host),
    {
        !host_only || self == host
    }
}

/// Metadata for a folder.
pub fn folder_meta(guid: &str) -> (r: String)
    ensures
        r@ == "fileFormatVersion: 2\nguid: "@ + guid@
            + "\nfolderAsset: yes\nDefaultImporter:\n  externalObjects: {}\n  userData: \n  assetBundleName: \n  assetBundleVariant: \n"@,
{
    let mut out = joined("fileFormatVersion: 2\nguid: ", guid);
    out.append(
        "\nfolderAsset: yes\nDefaultImporter:\n  externalObjects: {}\n  userData: \n  assetBundleName: \n  assetBundleVariant: \n",
    );
    out
}

/// The players a library can ship in.
pub const STANDALONES: [&'static str; 4] = ["Linux64", "OSXUniversal", "Win", "Win64"];

/// Leaves a player out, unless it is the platform's own.
pub open spec fn exclude_line(player: Seq<char>, own: Seq<char>) -> Seq<char> {
    "        Exclude "@ + player + ": "@ + (if player == own {
        "0"@
    } else {
        "1"@
    }) + "\n"@
}

/// Settings for a player: on for the platform's own, off for the others.
pub open spec fn player_lines(player: Seq<char>, own: Seq<char>, cpu: Seq<char>) -> Seq<char> {
    "  - first:\n      Standalone: "@ + player + "\n    second:\n      enabled: "@ + (if player
        == own {
        "1"@
    } else {
        "0"@
    }) + "\n      settings:\n        CPU: "@ + (if player == own {
        cpu
    } else {
        "None"@
    }) + "\n"@
}

/// What is said of the first `n` players by [`exclude_line`].
pub open spec fn exclude_lines(own: Seq<char>, n: nat) -> Seq<char>
    decreases n,
{
    if n == 0 {
        Seq::empty()
    } else {
        exclude_lines(own, (n - 1) as nat) + exclude_line(STANDALONES[n - 1]@, own)
    }
}

/// What is said of the first `n` players by [`player_lines`].
pub open spec fn all_player_lines(own: Seq<char>, cpu: Seq<char>, n: nat) -> Seq<char>
    decreases n,
{
    if n == 0 {
        Seq::empty()
    } else {
        all_player_lines(own, cpu, (n - 1) as nat) + player_lines(STANDALONES[n - 1]@, own, cpu)
    }
}

/// Metadata that makes a library a native plugin for its own editor and player only.
pub open spec fn plugin_meta_text(p: Platform) -> Seq<char> {
    "fileFormatVersion: 2\nguid: "@ + p.file_guid_text()
        + "\nPluginImporter:\n  externalObjects: {}\n  serializedVersion: 2\n  iconMap: {}\n  executionOrder: {}\n  defineConstraints: []\n  isPreloaded: 0\n  isOverridable: 1\n  isExplicitlyReferenced: 0\n  validateReferences: 1\n  platformData:\n  - first:\n      : Any\n    second:\n      enabled: 0\n      settings:\n        Exclude Editor: 0\n"@
        + exclude_lines(p.standalone_text(), 4)
        + "  - first:\n      Any: \n    second:\n      enabled: 0\n      settings: {}\n"@
        + "  - first:\n      Editor: Editor\n    second:\n      enabled: 1\n      settings:\n        CPU: "@
        + p.cpu_text() + "\n        DefaultValueInitialized: true\n        OS: "@ + p.editor_text()
        + "\n"@ + all_player_lines(p.standalone_text(), p.cpu_text(), 4)
        + "  userData: \n  assetBundleName: \n  assetBundleVariant: \n"@
}

/// Leaves players out, but for the platform's own.
fn exclusions(own: &str) -> (r: String)
    ensures
        r@ == exclude_lines(own@, 4),
{
    let mut out = String::new();
    let mut i: usize = 0;
    assert(out@ =~= Seq::<char>::empty());
    while i < 4
        invariant
            i <= 4,
            out@ == exclude_lines(own@, i as nat),
        decreases 4 - i,
    {
        let player = STANDALONES[i];
        let ghost before = out@;
        out.append("        Exclude ");
        out.append(player);
        out.append(": ");
        out.append(
            if same_text(player, own) {
                "0"
            } else {
                "1"
            },
        );
        out.append("\n");
        assert(out@ =~= before + exclude_line(player@, own@));
        i += 1;
    }
    out
}

/// Settings for each player.
fn players(own: &str, cpu: &str) -> (r: String)
    ensures
        r@ == all_player_lines(own@, cpu@, 4),
{
    let mut out = String::new();
    let mut i: usize = 0;
    assert(out@ =~= Seq::<char>::empty());
    while i < 4
        invariant
            i <= 4,
            out@ == all_player_lines(own@, cpu@, i as nat),
        decreases 4 - i,
    {
        let player = STANDALONES[i];
        let on = same_text(player, own);
        let ghost before = out@;
        out.append("  - first:\n      Standalone: ");
        out.append(player);
        out.append("\n    second:\n      enabled: ");
        out.append(
            if on {
                "1"
            } else {
                "0"
            },
        );
        out.append("\n      settings:\n        CPU: ");
        out.append(
            if on {
                cpu
            } else {
                "None"
            },
        );
        out.append("\n");
        assert(out@ =~= before + player_lines(player@, own@, cpu@));
        i += 1;
    }
    out
}

/// Metadata that makes a library a native plugin for its own editor and player only.
pub fn plugin_meta(platform: Platform) -> (r: String)
    ensures
        r@ == plugin_meta_text(platform),
{
    let mut out = joined("fileFormatVersion: 2\nguid: ", platform.file_guid());
    out.append(
        "\nPluginImporter:\n  externalObjects: {}\n  serializedVersion: 2\n  iconMap: {}\n  executionOrder: {}\n  defineConstraints: []\n  isPreloaded: 0\n  isOverridable: 1\n  isExplicitlyReferenced: 0\n  validateReferences: 1\n  platformData:\n  - first:\n      : Any\n    second:\n      enabled: 0\n      settings:\n        Exclude Editor: 0\n",
    );
    out.append(exclusions(platform.standalone()).as_str());
    out.append("  - first:\n      Any: \n    second:\n      enabled: 0\n      settings: {}\n");
    out.append(
        "  - first:\n      Editor: Editor\n    second:\n      enabled: 1\n      settings:\n        CPU: ",
    );
    out.append(platform.cpu());
    out.append("\n        DefaultValueInitialized: true\n        OS: ");
    out.append(platform.editor_os());
    out.append("\n");
    out.append(players(platform.standalone(), platform.cpu()).as_str());
    out.append("  userData: \n  assetBundleName: \n  assetBundleVariant: \n");
    out
}

} // verus!
