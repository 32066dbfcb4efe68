//! What is known of every marker on one target platform, as a marker that
//! always holds there.
//!
//! The interpreter is always CPython; the operating system and the machine
//! follow from the platform. Nothing is known of the release and version of
//! the operating system, and the Python version is left to the solver.

use crate::marker::source::{first_quote, is_formless, is_outsize, lists_label, pieces};
use crate::platform::{platform_name, Platform};
use crate::text::{concat, concat3, first_of, holds_at, lacks};
use vstd::prelude::*;
use vstd::string::*;

verus! {

/// A platform that packages are not installed onto.
#[derive(Debug, Clone, Copy, PartialEq, Eq)]
pub struct UnsupportedPlatform(pub Platform);

/// The message for a platform that is not supported.
pub open spec fn unsupported_platform_text(p: Platform) -> Seq<char> {
    "platform "@ + platform_name(p)
        + " has no known marker-environment mapping (ana only installs onto linux-64, linux-aarch64, osx-64, osx-arm64, win-64, or win-arm64)"@
}

impl UnsupportedPlatform {
    /// The message of the error.
    pub fn to_string(&self) -> (r: String)
        ensures
            r@ == unsupported_platform_text(self.0),
    {
        concat3(
            "platform ",
            self.0.name(),
            " has no known marker-environment mapping (ana only installs onto linux-64, linux-aarch64, osx-64, osx-arm64, win-64, or win-arm64)",
        )
    }
}

/// The values that four marker keys have on a platform.
pub struct SubdirMarkers {
    pub platform_system: &'static str,
    pub platform_machine: &'static str,
    pub sys_platform: &'static str,
    pub os_name: &'static str,
}

/// The operating system and machine of a platform, as markers name them:
/// `platform_system`, `platform_machine`, `sys_platform` and `os_name`.
pub open spec fn host_facts(p: Platform) -> Option<(Seq<char>, Seq<char>, Seq<char>, Seq<char>)> {
    match p {
        Platform::Linux64 => Some(("Linux"@, "x86_64"@, "linux"@, "posix"@)),
        Platform::LinuxAarch64 => Some(("Linux"@, "aarch64"@, "linux"@, "posix"@)),
        Platform::Osx64 => Some(("Darwin"@, "x86_64"@, "darwin"@, "posix"@)),
        Platform::OsxArm64 => Some(("Darwin"@, "arm64"@, "darwin"@, "posix"@)),
        Platform::Win64 => Some(("Windows"@, "AMD64"@, "win32"@, "nt"@)),
        Platform::WinArm64 => Some(("Windows"@, "ARM64"@, "win32"@, "nt"@)),
        _ => None,
    }
}

fn subdir_markers(subdir: Platform) -> (r: Option<SubdirMarkers>)
    ensures
        match r {
            Some(m) => host_facts(subdir) == Some(
                (m.platform_system@, m.platform_machine@, m.sys_platform@, m.os_name@),
            ),
            None => host_facts(subdir) is None,
        },
{
    match subdir {
        Platform::Linux64 => Some(
            SubdirMarkers {
                platform_system: "Linux",
                platform_machine: "x86_64",
                sys_platform: "linux",
                os_name: "posix",
            },
        ),
        Platform::LinuxAarch64 => Some(
            SubdirMarkers {
                platform_system: "Linux",
                platform_machine: "aarch64",
                sys_platform: "linux",
                os_name: "posix",
            },
        ),
        Platform::Osx64 => Some(
            SubdirMarkers {
                platform_system: "Darwin",
                platform_machine: "x86_64",
                sys_platform: "darwin",
                os_name: "posix",
            },
        ),
        Platform::OsxArm64 => Some(
            SubdirMarkers {
                platform_system: "Darwin",
                platform_machine: "arm64",
                sys_platform: "darwin",
                os_name: "posix",
            },
        ),
        Platform::Win64 => Some(
            SubdirMarkers {
                platform_system: "Windows",
                platform_machine: "AMD64",
                sys_platform: "win32",
                os_name: "nt",
            },
        ),
        Platform::WinArm64 => Some(
            SubdirMarkers {
                platform_system: "Windows",
                platform_machine: "ARM64",
                sys_platform: "win32",
                os_name: "nt",
            },
        ),
        _ => None,
    }
}

/// The clause that a marker key has a value.
pub open spec fn equality(key: Seq<char>, value: Seq<char>) -> Seq<char> {
    key + " == '"@ + value + "'"@
}

fn equals(key: &str, value: &str) -> (r: String)
    ensures
        r@ == equality(key@, value@),
{
    let head = concat3(key, " == '", value);
    concat(head.as_str(), "'")
}

/// What is known of every marker on a platform: a conjunction of six
/// equalities, two of them the same everywhere.
pub open spec fn assumption_text(facts: (Seq<char>, Seq<char>, Seq<char>, Seq<char>)) -> Seq<char> {
    equality("implementation_name"@, "cpython"@) + " and "@ + equality(
        "platform_python_implementation"@,
        "CPython"@,
    ) + " and "@ + equality("os_name"@, facts.3) + " and "@ + equality("sys_platform"@, facts.2)
        + " and "@ + equality("platform_system"@, facts.0) + " and "@ + equality(
        "platform_machine"@,
        facts.1,
    )
}

/// What is known of every marker on a platform, as a marker; nothing where
/// packages are not installed onto it.
pub open spec fn known_text(p: Platform) -> Seq<char> {
    match host_facts(p) {
        Some(facts) => assumption_text(facts),
        None => ""@,
    }
}

/// What is known of every marker on a platform.
#[derive(Debug, Clone, Copy, PartialEq, Eq)]
pub struct Assumption {
    pub platform: Platform,
}

impl Assumption {
    /// The assumption as a marker.
    pub fn text(&self) -> (r: String)
        ensures
            r@ == known_text(self.platform),
    {
        let markers = match subdir_markers(self.platform) {
            Some(markers) => markers,
            None => return "".to_owned(),
        };
        let mut out = equals("implementation_name", "cpython");
        out.append(" and ");
        out.append(equals("platform_python_implementation", "CPython").as_str());
        out.append(" and ");
        out.append(equals("os_name", markers.os_name).as_str());
        out.append(" and ");
        out.append(equals("sys_platform", markers.sys_platform).as_str());
        out.append(" and ");
        out.append(equals("platform_system", markers.platform_system).as_str());
        out.append(" and ");
        out.append(equals("platform_machine", markers.platform_machine).as_str());
        out
    }
}

/// What holds on every machine of a platform, or an error where packages are
/// not installed onto it.
pub fn known_values_assumption(subdir: Platform) -> (r: Result<Assumption, UnsupportedPlatform>)
    ensures
        match r {
            Ok(known) => host_facts(subdir) is Some && known.platform == subdir && known_text(
                known.platform,
            ) == assumption_text(host_facts(subdir)->0),
            Err(error) => host_facts(subdir) is None && error.0 == subdir,
        },
{
    match subdir_markers(subdir) {
        Some(_) => Ok(Assumption { platform: subdir }),
        None => Err(UnsupportedPlatform(subdir)),
    }
}

proof fn equality_lacks(key: Seq<char>, value: Seq<char>, c: char)
    requires
        lacks(key, c),
        lacks(value, c),
        c != ' ' && c != '=' && c != '\'',
    ensures
        lacks(equality(key, value), c),
{
    reveal_strlit(" == '");
    reveal_strlit("'");
}

proof fn assumption_lacks(p: Platform, c: char)
    requires
        c == '1' || c == '+',
    ensures
        lacks(known_text(p), c),
{
    let text = known_text(p);
    let facts = host_facts(p)->0;
    reveal_strlit("Linux");
    reveal_strlit("Darwin");
    reveal_strlit("Windows");
    reveal_strlit("x86_64");
    reveal_strlit("aarch64");
    reveal_strlit("arm64");
    reveal_strlit("AMD64");
    reveal_strlit("ARM64");
    reveal_strlit("linux");
    reveal_strlit("darwin");
    reveal_strlit("win32");
    reveal_strlit("posix");
    reveal_strlit("nt");
    reveal_strlit("implementation_name");
    reveal_strlit("cpython");
    reveal_strlit("platform_python_implementation");
    reveal_strlit("CPython");
    reveal_strlit("os_name");
    reveal_strlit("sys_platform");
    reveal_strlit("platform_system");
    reveal_strlit("platform_machine");
    reveal_strlit(" and ");
    reveal_strlit("");
    if host_facts(p) is Some {
        equality_lacks("implementation_name"@, "cpython"@, c);
        equality_lacks("platform_python_implementation"@, "CPython"@, c);
        equality_lacks("os_name"@, facts.3, c);
        equality_lacks("sys_platform"@, facts.2, c);
        equality_lacks("platform_system"@, facts.0, c);
        equality_lacks("platform_machine"@, facts.1, c);
    }
    assert(lacks(text, c));
}

proof fn pieces_lack(s: Seq<char>, c: char)
    requires
        lacks(s, c),
    ensures
        forall|k: int| 0 <= k < pieces(s).len() ==> lacks(#[trigger] pieces(s)[k], c),
    decreases s.len(),
{
    let i = first_quote(s);
    if 0 <= i < s.len() {
        let rest = s.skip(i + 1);
        let j = first_of(rest, s[i]);
        if 0 <= j < rest.len() {
            pieces_lack(rest.skip(j + 1), c);
            let two = seq![s.take(i), rest.take(j)];
            let more = pieces(rest.skip(j + 1));
            assert forall|k: int| 0 <= k < pieces(s).len() implies lacks(
                #[trigger] pieces(s)[k],
                c,
            ) by {
                if k >= 2 {
                    assert(pieces(s)[k] == more[k - 2]);
                } else {
                    assert(pieces(s)[k] == two[k]);
                }
            }
        }
    }
}

/// What is known of a platform has a normal form: it holds neither a version
/// number that is too large nor a local label.
pub(crate) proof fn assumption_has_form(p: Platform)
    ensures
        !is_formless(known_text(p)),
{
    let text = known_text(p);
    let all = pieces(text);
    assumption_lacks(p, '1');
    assumption_lacks(p, '+');
    pieces_lack(text, '1');
    pieces_lack(text, '+');
    reveal_strlit("18446744073709551614");
    assert forall|k: int| !#[trigger] is_outsize(all, k) by {
        if is_outsize(all, k) {
            let value = all[2 * k + 1];
            let at = choose|at: int| holds_at(value, at, "18446744073709551614"@);
            assert(value.subrange(at, at + 20)[0] == value[at]);
        }
    }
    assert forall|k: int| !#[trigger] lists_label(all, k) by {
        if lists_label(all, k) {
            assert(lacks(all[2 * k + 1], '+'));
        }
    }
}

/// Packages are installed onto six platforms. What markers say of each: the
/// Windows ones are `nt`, `win32` and `Windows`, and the others `posix`; the
/// machine is what the operating system calls it.
pub proof fn facts_of_every_platform(p: Platform)
    ensures
        host_facts(p) is Some <==> p is Linux64 || p is LinuxAarch64 || p is Osx64 || p is OsxArm64
            || p is Win64 || p is WinArm64,
        host_facts(p) is Some ==> {
            let (system, machine, platform, os) = host_facts(p)->0;
            &&& p is Linux64 || p is LinuxAarch64 ==> system == "Linux"@ && platform == "linux"@
                && os == "posix"@
            &&& p is Osx64 || p is OsxArm64 ==> system == "Darwin"@ && platform == "darwin"@ && os
                == "posix"@
            &&& p is Win64 || p is WinArm64 ==> system == "Windows"@ && platform == "win32"@ && os
                == "nt"@
            &&& p is Linux64 || p is Osx64 ==> machine == "x86_64"@
            &&& p is LinuxAarch64 ==> machine == "aarch64"@
            &&& p is OsxArm64 ==> machine == "arm64"@
            &&& p is Win64 ==> machine == "AMD64"@
            &&& p is WinArm64 ==> machine == "ARM64"@
        },
{
}

/// What is known of a platform is that CPython runs, and what its operating
/// system and machine are: six equalities, all of which hold.
pub proof fn known_text_states_six_equalities(
    system: Seq<char>,
    machine: Seq<char>,
    platform: Seq<char>,
    os: Seq<char>,
)
    ensures
        assumption_text((system, machine, platform, os)) == "implementation_name == 'cpython'"@
            + " and "@ + "platform_python_implementation == 'CPython'"@ + " and "@ + ("os_name == '"@
            + os + "'"@) + " and "@ + ("sys_platform == '"@ + platform + "'"@) + " and "@ + (
        "platform_system == '"@ + system + "'"@) + " and "@ + ("platform_machine == '"@ + machine
            + "'"@),
{
    reveal_strlit("implementation_name");
    reveal_strlit("cpython");
    reveal_strlit("implementation_name == 'cpython'");
    reveal_strlit("platform_python_implementation");
    reveal_strlit("CPython");
    reveal_strlit("platform_python_implementation == 'CPython'");
    reveal_strlit("os_name");
    reveal_strlit("os_name == '");
    reveal_strlit("sys_platform");
    reveal_strlit("sys_platform == '");
    reveal_strlit("platform_system");
    reveal_strlit("platform_system == '");
    reveal_strlit("platform_machine");
    reveal_strlit("platform_machine == '");
    reveal_strlit(" == '");
    reveal_strlit("'");
    assert(equality("implementation_name"@, "cpython"@) =~= "implementation_name == 'cpython'"@);
    assert(equality("platform_python_implementation"@, "CPython"@)
        =~= "platform_python_implementation == 'CPython'"@);
    assert("os_name"@ + " == '"@ =~= "os_name == '"@);
    assert("sys_platform"@ + " == '"@ =~= "sys_platform == '"@);
    assert("platform_system"@ + " == '"@ =~= "platform_system == '"@);
    assert("platform_machine"@ + " == '"@ =~= "platform_machine == '"@);
}

/// A platform that nothing is known of is refused by its name.
pub proof fn unknown_platforms_are_named(p: Platform)
    ensures
        unsupported_platform_text(p) == "platform "@ + platform_name(p)
            + " has no known marker-environment mapping (ana only installs onto linux-64, linux-aarch64, osx-64, osx-arm64, win-64, or win-arm64)"@,
{
}

} // verus!
