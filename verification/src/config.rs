//! The run's fixed facts and the final configuration record: the
//! platform, the architecture identifier, the seeded include paths, and
//! the shape of the record handed to the JSON emitter.

use vstd::prelude::*;
use vstd::string::StringExecFns;
use crate::strutil::concat_str;
use crate::strutil::starts_with;
use crate::rules::join_path;
use crate::rules::join_path_spec;
use crate::agg::IncludePathAggregator;

verus! {

/// The platform the configuration is shaped for.
#[derive(Clone, Copy, PartialEq, Eq, Structural, Debug)]
pub enum OS {
    Mac,
    Linux,
    Windows,
    Unknown,
}

/// The platform's name as the configuration format spells it.
pub open spec fn os_name(os: OS) -> Seq<char> {
    match os {
        OS::Mac => "Mac"@,
        OS::Linux => "Linux"@,
        OS::Windows => "Win32"@,
        OS::Unknown => "Unknown"@,
    }
}

impl OS {
    /// The platform's name as the configuration format spells it.
    pub fn to_str(&self) -> (r: &'static str)
        ensures
            r@ == os_name(*self),
    {
        match self {
            OS::Mac => "Mac",
            OS::Linux => "Linux",
            OS::Windows => "Win32",
            OS::Unknown => "Unknown",
        }
    }
}

/// The configuration record handed to the JSON emitter: a platform name,
/// the sorted include paths, an empty defines list, the framework search
/// paths, fixed language standards, a compiler/architecture identifier,
/// and the envelope's version tag.
pub struct ProjectConfig {
    pub name: String,
    pub include_paths: Vec<String>,
    pub defines: Vec<String>,
    pub mac_framework_paths: Vec<String>,
    pub c_standard: String,
    pub cpp_standard: String,
    pub intellisense_mode: String,
    pub version: u64,
}

/// Shapes the final configuration record from the platform, the
/// architecture identifier, and the already sorted include and framework
/// path lists. Every field is pinned: fixed standards `c11` and `c++17`,
/// an empty defines list, mode `clang-` plus the architecture, and
/// envelope version 4.
pub fn build_config(
    os: OS,
    arch: &str,
    include_paths: Vec<String>,
    mac_framework_paths: Vec<String>,
) -> (r: ProjectConfig)
    ensures
        r.name@ == os_name(os),
        r.include_paths == include_paths,
        r.defines@ == Seq::<String>::empty(),
        r.mac_framework_paths == mac_framework_paths,
        r.c_standard@ == "c11"@,
        r.cpp_standard@ == "c++17"@,
        r.intellisense_mode@ == "clang-"@ + arch@,
        r.version == 4u64,
{
    ProjectConfig {
        name: String::from_str(os.to_str()),
        include_paths,
        defines: Vec::new(),
        mac_framework_paths,
        c_standard: String::from_str("c11"),
        cpp_standard: String::from_str("c++17"),
        intellisense_mode: concat_str("clang-", arch),
        version: 4,
    }
}

/// Where a declared module lives: a name under the project's own module
/// prefix resolves against the project root, any other name against the
/// toolkit root's module directory.
pub fn addon_dir_candidate(proj_root: &str, toolkit_root: &str, addon: &str) -> (r: String)
    ensures
        "addons/"@.is_prefix_of(addon@) ==> r@ == join_path_spec(proj_root@, addon@),
        !"addons/"@.is_prefix_of(addon@) ==> r@ == join_path_spec(
            join_path_spec(toolkit_root@, "addons"@),
            addon@,
        ),
{
    if starts_with(addon, "addons/") {
        join_path(proj_root, addon)
    } else {
        let t = join_path(toolkit_root, "addons");
        join_path(t.as_str(), addon)
    }
}

/// Seeds the aggregate with the fixed workspace tokens and the toolkit's
/// own library paths.
pub fn seed_include_paths(agg: &mut IncludePathAggregator, toolkit_root: &str)
    requires
        old(agg).wf(),
    ensures
        final(agg).wf(),
        final(agg).set_view() == old(agg).set_view().insert("${workspaceFolder}/**"@).insert(
            "${workspaceFolder}/src"@,
        ).insert("${workspaceFolder}/src/**"@).insert(
            join_path_spec(toolkit_root@, "libs/openFrameworks"@),
        ).insert(join_path_spec(toolkit_root@, "libs/openFrameworks/**"@)),
{
    agg.add(String::from_str("${workspaceFolder}/**"));
    agg.add(String::from_str("${workspaceFolder}/src"));
    agg.add(String::from_str("${workspaceFolder}/src/**"));
    agg.add(join_path(toolkit_root, "libs/openFrameworks"));
    agg.add(join_path(toolkit_root, "libs/openFrameworks/**"));
}

} // verus!
