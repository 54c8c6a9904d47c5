//! Exclusion rules: the compiler that turns directive lines of a module's
//! configuration file into rules, and the predicate that matches a
//! directory path against a rule set.

use vstd::prelude::*;
use vstd::string::StrSliceExecFns;
use crate::strutil::trim;
use crate::strutil::trim_spec;
use crate::strutil::starts_with;
use crate::strutil::ends_with;
use crate::strutil::str_eq;
use crate::strutil::find_last_sep;
use crate::strutil::last_sep_idx;
use crate::strutil::substring;
use crate::strutil::concat_str;

verus! {

/// How a rule's pattern is held against a directory path.
#[derive(Clone, Copy, PartialEq, Eq, Structural, Debug)]
pub enum MatchKind {
    /// The whole path must equal the pattern.
    Exact,
    /// The path must start with the pattern, as a plain string prefix.
    PrefixWildcard,
    /// Intended as "the directory and everything beneath it"; matched as
    /// the same plain string prefix test as `PrefixWildcard`.
    SubtreeWildcard,
}

/// One compiled exclusion rule: an absolute path stem and a match kind.
/// The wildcard suffix text stripped during compilation is encoded solely
/// in `kind`, never kept in `pattern`.
pub struct ExcludePattern {
    pub pattern: String,
    pub kind: MatchKind,
}

/// The wildcard suffix that `kind` stands for in the source format.
pub open spec fn kind_suffix(k: MatchKind) -> Seq<char> {
    match k {
        MatchKind::Exact => Seq::empty(),
        MatchKind::PrefixWildcard => seq!['%'],
        MatchKind::SubtreeWildcard => seq!['/', '%'],
    }
}

impl ExcludePattern {
    /// The rule written back in the source-format notation: the pattern
    /// with its wildcard suffix restored.
    pub fn pattern_str(&self) -> (r: String)
        ensures
            r@ == self.pattern@ + kind_suffix(self.kind),
    {
        proof {
            reveal_strlit("%");
            reveal_strlit("/%");
        }
        match self.kind {
            MatchKind::Exact => {
                let r = self.pattern.clone();
                proof {
                    assert(r@ =~= self.pattern@ + kind_suffix(self.kind));
                }
                r
            },
            MatchKind::PrefixWildcard => {
                let r = concat_str(self.pattern.as_str(), "%");
                proof {
                    assert(r@ =~= self.pattern@ + kind_suffix(self.kind));
                }
                r
            },
            MatchKind::SubtreeWildcard => {
                let r = concat_str(self.pattern.as_str(), "/%");
                proof {
                    assert(r@ =~= self.pattern@ + kind_suffix(self.kind));
                }
                r
            },
        }
    }
}

/// Whether one rule matches a directory path: equality for `Exact`, a
/// plain string prefix test for both wildcard kinds.
pub open spec fn rule_matches(pattern: Seq<char>, kind: MatchKind, dir: Seq<char>) -> bool {
    match kind {
        MatchKind::Exact => dir == pattern,
        MatchKind::PrefixWildcard => pattern.is_prefix_of(dir),
        MatchKind::SubtreeWildcard => pattern.is_prefix_of(dir),
    }
}

/// A directory is excluded when any rule of the set matches it.
pub open spec fn excluded(dir: Seq<char>, rules: Seq<ExcludePattern>) -> bool {
    exists|k: int|
        0 <= k < rules.len() && rule_matches(rules[k].pattern@, rules[k].kind, dir)
}

/// Tests an absolute directory path against a rule set: excluded when any
/// rule matches.
pub fn is_excluded_dir(dir_abs: &str, excludes: &Vec<ExcludePattern>) -> (r: bool)
    ensures
        r == excluded(dir_abs@, excludes@),
{
    let mut k: usize = 0;
    while k < excludes.len()
        invariant
            k <= excludes@.len(),
            forall|t: int|
                0 <= t < k ==> !rule_matches(excludes@[t].pattern@, excludes@[t].kind, dir_abs@),
        decreases excludes@.len() - k,
    {
        let m = match excludes[k].kind {
            MatchKind::Exact => str_eq(dir_abs, excludes[k].pattern.as_str()),
            MatchKind::PrefixWildcard => starts_with(dir_abs, excludes[k].pattern.as_str()),
            MatchKind::SubtreeWildcard => starts_with(dir_abs, excludes[k].pattern.as_str()),
        };
        if m {
            return true;
        }
        k = k + 1;
    }
    false
}

/// Resolves `rel` against `base` the way slash-separated path join works:
/// an absolute `rel` replaces `base`, any other `rel` is appended after a
/// separator.
pub open spec fn join_path_spec(base: Seq<char>, rel: Seq<char>) -> Seq<char> {
    if rel.len() > 0 && rel[0] == '/' {
        rel
    } else {
        base + seq!['/'] + rel
    }
}

/// Joins a relative path onto a base directory path.
pub fn join_path(base: &str, rel: &str) -> (r: String)
    ensures
        r@ == join_path_spec(base@, rel@),
{
    if rel.unicode_len() > 0 && rel.get_char(0) == '/' {
        rel.to_owned()
    } else {
        let t = concat_str(base, "/");
        let r = concat_str(t.as_str(), rel);
        proof {
            reveal_strlit("/");
            assert(r@ =~= base@ + seq!['/'] + rel@);
        }
        r
    }
}

/// A trimmed line is a candidate only when it begins with one of the two
/// recognized directive names.
pub open spec fn is_directive_line(line: Seq<char>) -> bool {
    "ADDON_SOURCES_EXCLUDE"@.is_prefix_of(line) || "ADDON_INCLUDES_EXCLUDE"@.is_prefix_of(line)
}

/// The rule that one raw configuration line compiles to, if any: blank
/// lines, comment lines, unrecognized lines, lines without a `=` or `+`,
/// and lines whose pattern trims to nothing all yield `None`. The stem is
/// resolved against the module's own root directory.
pub open spec fn line_rule(root: Seq<char>, raw_line: Seq<char>) -> Option<(Seq<char>, MatchKind)> {
    let line = trim_spec(raw_line);
    if line.len() == 0 {
        None
    } else if line[0] == '#' {
        None
    } else if !is_directive_line(line) {
        None
    } else {
        let si = last_sep_idx(line);
        if si < 0 {
            None
        } else {
            let raw = trim_spec(line.skip(si + 1));
            if raw.len() == 0 {
                None
            } else if "/%"@.is_suffix_of(raw) {
                Some((join_path_spec(root, raw.take(raw.len() - 2)), MatchKind::SubtreeWildcard))
            } else if "%"@.is_suffix_of(raw) {
                Some((join_path_spec(root, raw.take(raw.len() - 1)), MatchKind::PrefixWildcard))
            } else {
                Some((join_path_spec(root, raw), MatchKind::Exact))
            }
        }
    }
}

/// Compiles one raw line of a module's configuration file.
pub fn parse_exclude_line(addon_root: &str, raw_line: &str) -> (r: Option<ExcludePattern>)
    ensures
        match r {
            Some(p) => line_rule(addon_root@, raw_line@) == Some((p.pattern@, p.kind)),
            None => line_rule(addon_root@, raw_line@) is None,
        },
{
    let line = trim(raw_line);
    let n = line.as_str().unicode_len();
    if n == 0 {
        return None;
    }
    if line.as_str().get_char(0) == '#' {
        return None;
    }
    let src_directive = starts_with(line.as_str(), "ADDON_SOURCES_EXCLUDE");
    let inc_directive = starts_with(line.as_str(), "ADDON_INCLUDES_EXCLUDE");
    if !src_directive && !inc_directive {
        return None;
    }
    match find_last_sep(line.as_str()) {
        None => None,
        Some(i) => {
            let rest = substring(line.as_str(), i + 1, n);
            proof {
                assert(rest@ =~= line@.skip(i + 1));
            }
            let raw = trim(rest.as_str());
            let m = raw.as_str().unicode_len();
            if m == 0 {
                return None;
            }
            if ends_with(raw.as_str(), "/%") {
                proof {
                    reveal_strlit("/%");
                }
                let cleaned = substring(raw.as_str(), 0, m - 2);
                proof {
                    assert(cleaned@ =~= raw@.take(raw@.len() - 2));
                }
                Some(ExcludePattern {
                    pattern: join_path(addon_root, cleaned.as_str()),
                    kind: MatchKind::SubtreeWildcard,
                })
            } else if ends_with(raw.as_str(), "%") {
                proof {
                    reveal_strlit("%");
                }
                let cleaned = substring(raw.as_str(), 0, m - 1);
                proof {
                    assert(cleaned@ =~= raw@.take(raw@.len() - 1));
                }
                Some(ExcludePattern {
                    pattern: join_path(addon_root, cleaned.as_str()),
                    kind: MatchKind::PrefixWildcard,
                })
            } else {
                Some(ExcludePattern {
                    pattern: join_path(addon_root, raw.as_str()),
                    kind: MatchKind::Exact,
                })
            }
        },
    }
}

/// The pattern-and-kind pairs that a rule sequence carries.
pub open spec fn rule_views(rules: Seq<ExcludePattern>) -> Seq<(Seq<char>, MatchKind)> {
    rules.map_values(|p: ExcludePattern| (p.pattern@, p.kind))
}

/// The rules compiled from a sequence of raw configuration lines, in line
/// order, skipping lines that yield no rule.
pub open spec fn rules_of_lines(root: Seq<char>, lines: Seq<String>) -> Seq<(Seq<char>, MatchKind)>
    decreases lines.len(),
{
    if lines.len() == 0 {
        Seq::empty()
    } else {
        let rest = rules_of_lines(root, lines.drop_last());
        match line_rule(root, lines.last()@) {
            Some(p) => rest.push(p),
            None => rest,
        }
    }
}

/// Compiles a module's configuration file, given as its raw lines, into
/// the module's rule set. A missing file is handed in as no lines at all
/// and yields the empty rule set.
pub fn parse_addon_excludes(addon_root: &str, lines: &Vec<String>) -> (r: Vec<ExcludePattern>)
    ensures
        rule_views(r@) == rules_of_lines(addon_root@, lines@),
{
    let mut r: Vec<ExcludePattern> = Vec::new();
    let mut i: usize = 0;
    while i < lines.len()
        invariant
            i <= lines@.len(),
            rule_views(r@) == rules_of_lines(addon_root@, lines@.take(i as int)),
        decreases lines@.len() - i,
    {
        let ghost prev = r@;
        match parse_exclude_line(addon_root, lines[i].as_str()) {
            Some(p) => {
                r.push(p);
                proof {
                    assert(rule_views(r@) =~= rule_views(prev).push((r@[prev.len() as int].pattern@, r@[prev.len() as int].kind)));
                }
            },
            None => {},
        }
        proof {
            assert(lines@.take(i + 1).drop_last() =~= lines@.take(i as int));
            assert(lines@.take(i + 1).last() == lines@[i as int]);
        }
        i = i + 1;
    }
    proof {
        assert(lines@.take(lines@.len() as int) =~= lines@);
    }
    r
}

} // verus!
