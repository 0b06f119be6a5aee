//! The jailed filesystem write tools (`fs_write`, `fs_edit`,
//! `fs_create_dir`, `fs_remove`): argument checking, path resolution inside
//! a canonical root, edit planning and results.
//!
//! The host performs the filesystem work (canonicalizing, reading, writing);
//! these functions decide everything around it.

use vstd::prelude::*;
use crate::json::{Json, JsonNumber, entries, str_value};
use crate::paths::{
    Component, components, components_of, file_name, file_name_of, join_path, parent_of,
    parent_path, path_join, path_starts_with, paths_equal, same_path, PathComponent,
    lemma_components_join, lemma_components_join_name, lemma_components_plain,
    lemma_rooted_is_absolute, normal_comps, pieces, is_prefix, plain_name, render,
};
use crate::text::{chars_of, copy_range, push_chars, push_char, push_decimal, push_str, string_of, trim, trim_bounds};

verus! {

/// The views of a string result.
pub open spec fn res_view(r: Result<String, String>) -> Result<Seq<char>, Seq<char>> {
    match r {
        Ok(s) => Ok(s@),
        Err(e) => Err(e@),
    }
}

/// Whether a component list holds a parent-directory component.
pub open spec fn has_parent_dir(cs: Seq<Component>) -> bool {
    exists|i: int| 0 <= i < cs.len() && (#[trigger] cs[i]) is ParentDir
}

/// The candidate path for `rel` under `root`: refused when absolute or when
/// any component is `..`, otherwise `root` joined with `rel`.
pub open spec fn relative_spec(root: Seq<char>, rel: Seq<char>) -> Result<Seq<char>, Seq<char>> {
    if rel.len() > 0 && rel[0] == '/' {
        Err("path must be relative to the tool root"@)
    } else if has_parent_dir(components(rel)) {
        Err("path escapes the tool root"@)
    } else {
        Ok(path_join(root, rel))
    }
}

/// The parent directory to canonicalize for `rel`.
pub open spec fn parent_request_spec(root: Seq<char>, rel: Seq<char>) -> Result<Seq<char>, Seq<char>> {
    match relative_spec(root, rel) {
        Err(e) => Err(e),
        Ok(c) => match parent_path(c) {
            Some(p) => Ok(p),
            None => Err("path has no parent"@),
        },
    }
}

/// The write target for `rel` once its parent directory is canonicalized
/// (`None`: the parent does not exist).
pub open spec fn parent_resolution_spec(root: Seq<char>, rel: Seq<char>, canonical_parent: Option<Seq<char>>) -> Result<Seq<char>, Seq<char>> {
    match relative_spec(root, rel) {
        Err(e) => Err(e),
        Ok(c) => match canonical_parent {
            None => Err("parent directory does not exist for "@ + rel),
            Some(cp) => if !path_starts_with(cp, root) {
                Err("path escapes the tool root"@)
            } else {
                match file_name(c) {
                    Some(n) => Ok(path_join(cp, n)),
                    None => Err("path has no file name"@),
                }
            },
        },
    }
}

/// An existing path for `rel` once its candidate is canonicalized (`None`:
/// it does not exist).
pub open spec fn existing_resolution_spec(root: Seq<char>, rel: Seq<char>, canonical: Option<Seq<char>>) -> Result<Seq<char>, Seq<char>> {
    match relative_spec(root, rel) {
        Err(e) => Err(e),
        Ok(_) => match canonical {
            None => Err("path does not exist inside the tool root: "@ + rel),
            Some(p) => if path_starts_with(p, root) {
                Ok(p)
            } else {
                Err("path escapes the tool root"@)
            },
        },
    }
}

/// The target of a write: through the existing path when something already
/// stands at the candidate (even a dangling symlink), else through its
/// parent directory. `canonical` is the host's canonical form of whichever
/// of the two was asked for.
pub open spec fn write_resolution_spec(root: Seq<char>, rel: Seq<char>, candidate_exists: bool, canonical: Option<Seq<char>>) -> Result<Seq<char>, Seq<char>> {
    if candidate_exists {
        existing_resolution_spec(root, rel, canonical)
    } else {
        parent_resolution_spec(root, rel, canonical)
    }
}

/// The view of an optional string.
pub open spec fn opt_view(o: Option<&str>) -> Option<Seq<char>> {
    match o {
        Some(p) => Some(p@),
        None => None,
    }
}

fn concat2(a: &str, b: &str) -> (r: String)
    ensures
        r@ == a@ + b@,
{
    let mut m = String::new();
    push_str(&mut m, a);
    push_str(&mut m, b);
    m
}

/// A canonicalized directory used as the write jail.
pub struct FsWriteRoot {
    root: String,
}

impl FsWriteRoot {
    /// The canonical root.
    pub closed spec fn root_path(&self) -> Seq<char> {
        self.root@
    }

    /// The jail for a canonicalized root, refused unless it is a directory.
    pub fn new(canonical_root: &str, is_dir: bool) -> (r: Result<FsWriteRoot, String>)
        ensures
            is_dir ==> (r matches Ok(x) && x.root_path() == canonical_root@),
            !is_dir ==> (r matches Err(e) && e@ == "fs_write root is not a directory: "@
                + canonical_root@),
    {
        if !is_dir {
            return Err(concat2("fs_write root is not a directory: ", canonical_root));
        }
        let mut root = String::new();
        push_str(&mut root, canonical_root);
        Ok(FsWriteRoot { root })
    }

    /// The canonical root.
    pub fn root(&self) -> (r: &str)
        ensures
            r@ == self.root_path(),
    {
        self.root.as_str()
    }

    /// The candidate path for `rel`: refused when absolute or when it could
    /// climb out through `..`.
    pub fn relative(&self, rel: &str) -> (r: Result<String, String>)
        ensures
            res_view(r) == relative_spec(self.root_path(), rel@),
    {
        let v = chars_of(rel);
        if v.len() > 0 && v[0] == '/' {
            return Err("path must be relative to the tool root".to_string());
        }
        let cs = components_of(rel);
        let ghost cv = components(rel@);
        let mut i: usize = 0;
        while i < cs.len()
            invariant
                i <= cs@.len(),
                !(rel@.len() > 0 && rel@[0] == '/'),
                cv == components(rel@),
                cv == crate::paths::comps_view(cs@),
                forall|j: int| 0 <= j < i ==> !((#[trigger] cv[j]) is ParentDir),
            decreases cs.len() - i,
        {
            assert(cv[i as int] == crate::paths::comp_view(cs@[i as int]));
            if let PathComponent::ParentDir = &cs[i] {
                assert(cv[i as int] is ParentDir);
                assert(has_parent_dir(cv));
                return Err("path escapes the tool root".to_string());
            }
            i = i + 1;
        }
        Ok(join_path(self.root.as_str(), rel))
    }

    /// The parent directory the host must canonicalize to resolve `rel` for
    /// creation.
    pub fn parent_request(&self, rel: &str) -> (r: Result<String, String>)
        ensures
            res_view(r) == parent_request_spec(self.root_path(), rel@),
    {
        let candidate = self.relative(rel)?;
        match parent_of(candidate.as_str()) {
            Some(p) => Ok(p),
            None => Err("path has no parent".to_string()),
        }
    }

    /// The target for `rel` given its canonicalized parent directory: refused
    /// when the parent lies outside the root.
    pub fn resolve_parent(&self, rel: &str, canonical_parent: Option<&str>) -> (r: Result<String, String>)
        ensures
            res_view(r) == parent_resolution_spec(
                self.root_path(),
                rel@,
                match canonical_parent {
                    Some(p) => Some(p@),
                    None => None,
                },
            ),
    {
        let candidate = self.relative(rel)?;
        let cp = match canonical_parent {
            None => {
                return Err(concat2("parent directory does not exist for ", rel));
            },
            Some(p) => p,
        };
        if !crate::paths::starts_with_path(cp, self.root.as_str()) {
            return Err("path escapes the tool root".to_string());
        }
        match file_name_of(candidate.as_str()) {
            Some(n) => Ok(join_path(cp, n.as_str())),
            None => Err("path has no file name".to_string()),
        }
    }

    /// An existing path given its canonical form: refused when it lies
    /// outside the root (for instance through a symlink).
    pub fn resolve_existing(&self, rel: &str, canonical: Option<&str>) -> (r: Result<String, String>)
        ensures
            res_view(r) == existing_resolution_spec(
                self.root_path(),
                rel@,
                match canonical {
                    Some(p) => Some(p@),
                    None => None,
                },
            ),
    {
        let _candidate = self.relative(rel)?;
        match canonical {
            None => Err(concat2("path does not exist inside the tool root: ", rel)),
            Some(p) => if crate::paths::starts_with_path(p, self.root.as_str()) {
                let mut s = String::new();
                push_str(&mut s, p);
                Ok(s)
            } else {
                Err("path escapes the tool root".to_string())
            },
        }
    }

    /// The target of a write to `rel`: `candidate_exists` says whether
    /// anything (even a dangling symlink) stands at the candidate path;
    /// `canonical` is the canonical form of the candidate in that case, of
    /// its parent directory otherwise.
    pub fn resolve_write(&self, rel: &str, candidate_exists: bool, canonical: Option<&str>) -> (r: Result<String, String>)
        ensures
            res_view(r) == write_resolution_spec(self.root_path(), rel@, candidate_exists, opt_view(canonical)),
    {
        if candidate_exists {
            return self.resolve_existing(rel, canonical);
        }
        self.resolve_parent(rel, canonical)
    }
}

// ---------------------------------------------------------------------------
// Laws: nothing resolves outside the jail
// ---------------------------------------------------------------------------

proof fn lemma_normal_comps_kinds(ps: Seq<Seq<char>>)
    ensures
        forall|i: int| 0 <= i < normal_comps(ps).len() ==> (#[trigger] normal_comps(ps)[i]) is Normal
            || normal_comps(ps)[i] is ParentDir,
    decreases ps.len(),
{
    if ps.len() > 0 {
        lemma_normal_comps_kinds(ps.drop_first());
    }
}

/// Under an absolute root (as every canonical root is), an accepted
/// relative path lies under the root: its components are the root's
/// followed only by normal names (no `..`, no second root).
pub proof fn law_relative_stays_inside_root(root: Seq<char>, rel: Seq<char>)
    requires
        root.len() > 0,
        root[0] == '/',
    ensures
        relative_spec(root, rel) matches Ok(c) ==> {
            &&& path_starts_with(c, root)
            &&& forall|i: int|
                components(root).len() <= i < components(c).len() ==> (#[trigger] components(c)[i]) is Normal
        },
{
    if relative_spec(root, rel) is Ok {
        let c = path_join(root, rel);
        lemma_components_join(root, rel);
        let extra = normal_comps(pieces(rel));
        lemma_normal_comps_kinds(pieces(rel));
        let ps = pieces(rel);
        let lead: Seq<Component> = if rel.len() > 0 && rel[0] == '/' {
            seq![Component::RootDir]
        } else if ps[0] == seq!['.'] {
            seq![Component::CurDir]
        } else {
            seq![]
        };
        assert(components(rel) == lead + extra);
        assert forall|i: int| components(root).len() <= i < components(c).len() implies (#[trigger] components(c)[i]) is Normal by {
            let k = i - components(root).len();
            assert(components(c)[i] == extra[k]);
            assert(components(rel)[k + lead.len()] == extra[k]);
            if extra[k] is ParentDir {
                assert(has_parent_dir(components(rel)));
            }
        }
        assert(components(c).take(components(root).len() as int) =~= components(root));
    }
}

/// Under an absolute root (as every canonical root is), a write target
/// resolved through a canonical parent lies under the root: it is that
/// parent (itself under the root) plus one plain file name.
pub proof fn law_resolved_parent_stays_inside_root(root: Seq<char>, rel: Seq<char>, cp: Seq<char>)
    requires
        root.len() > 0,
        root[0] == '/',
    ensures
        parent_resolution_spec(root, rel, Some(cp)) matches Ok(p) ==> {
            &&& path_starts_with(p, root)
            &&& path_starts_with(cp, root)
            &&& exists|n: Seq<char>| plain_name(n) && components(p) == #[trigger] components(cp).push(
                Component::Normal(n),
            )
        },
{
    if parent_resolution_spec(root, rel, Some(cp)) is Ok {
        let c = path_join(root, rel);
        let n = file_name(c)->0;
        lemma_components_plain(c);
        let cs = components(c);
        assert(cs[cs.len() - 1] is Normal);
        assert(plain_name(n));
        let rc = components(root);
        assert(rc.len() > 0 && rc[0] is RootDir);
        let cpc = components(cp);
        assert(cpc.take(rc.len() as int) == rc);
        assert(cpc[0] == cpc.take(rc.len() as int)[0]);
        lemma_rooted_is_absolute(cp);
        lemma_components_join_name(cp, n);
        let p = path_join(cp, n);
        assert(components(p).take(rc.len() as int) =~= rc);
    }
}

/// An existing path is accepted only when its canonical form lies under
/// the root.
pub proof fn law_existing_stays_inside_root(root: Seq<char>, rel: Seq<char>, canonical: Option<Seq<char>>)
    ensures
        existing_resolution_spec(root, rel, canonical) matches Ok(p) ==> path_starts_with(p, root),
{
}

/// Under an absolute root (as every canonical root is), whatever the host
/// reports, a write never resolves outside the root.
pub proof fn law_write_stays_inside_root(root: Seq<char>, rel: Seq<char>, candidate_exists: bool, canonical: Option<Seq<char>>)
    requires
        root.len() > 0,
        root[0] == '/',
    ensures
        write_resolution_spec(root, rel, candidate_exists, canonical) matches Ok(p) ==> path_starts_with(p, root),
{
    if !candidate_exists {
        if let Some(cp) = canonical {
            law_resolved_parent_stays_inside_root(root, rel, cp);
        }
    }
}

// ---------------------------------------------------------------------------
// Arguments and results
// ---------------------------------------------------------------------------

/// A string argument, or `missing` when it is absent or not a string.
pub open spec fn string_arg_spec(args: Json, key: Seq<char>, missing: Seq<char>) -> Result<Seq<char>, Seq<char>> {
    match args.member(key) {
        Some(Json::String(s)) => Ok(s@),
        _ => Err(missing),
    }
}

/// A boolean argument, false when absent or not a boolean.
pub open spec fn bool_arg_spec(args: Json, key: Seq<char>) -> bool {
    match args.member(key) {
        Some(Json::Bool(b)) => b,
        _ => false,
    }
}

fn string_arg(args: &Json, key: &str, missing: &str) -> (r: Result<String, String>)
    ensures
        res_view(r) == string_arg_spec(*args, key@, missing@),
{
    match args.get(key) {
        Some(Json::String(s)) => Ok(s.clone()),
        _ => {
            let mut m = String::new();
            push_str(&mut m, missing);
            Err(m)
        },
    }
}

fn bool_arg(args: &Json, key: &str) -> (r: bool)
    ensures
        r == bool_arg_spec(*args, key@),
{
    match args.get(key) {
        Some(Json::Bool(b)) => *b,
        _ => false,
    }
}

/// The error payload a failed tool call returns: `{"error": message}`.
pub fn error_json(message: &str) -> (r: Json)
    ensures
        r is Object,
        entries(r).len() == 1,
        entries(r)[0].0@ == "error"@,
        str_value(entries(r)[0].1) == Some(message@),
{
    let mut m = String::new();
    push_str(&mut m, message);
    let mut es: Vec<(String, Json)> = Vec::new();
    es.push(("error".to_string(), Json::String(m)));
    Json::Object(es)
}

/// The result `{"path": rel}`.
pub fn path_json(rel: &str) -> (r: Json)
    ensures
        r is Object,
        entries(r).len() == 1,
        entries(r)[0].0@ == "path"@,
        str_value(entries(r)[0].1) == Some(rel@),
{
    let mut p = String::new();
    push_str(&mut p, rel);
    let mut es: Vec<(String, Json)> = Vec::new();
    es.push(("path".to_string(), Json::String(p)));
    Json::Object(es)
}

/// The `fs_write` tool: create or replace one file under the root.
pub struct FsWrite(pub FsWriteRoot);

/// The `fs_edit` tool: replace an exact text occurrence in one file.
pub struct FsEdit(pub FsWriteRoot);

/// The `fs_create_dir` tool: create one directory under the root.
pub struct FsCreateDir(pub FsWriteRoot);

/// The `fs_remove` tool: remove one file or empty directory under the root.
pub struct FsRemove(pub FsWriteRoot);

/// What an `fs_write` call asks for.
#[derive(Debug, PartialEq)]
pub struct WriteArgs {
    pub path: String,
    pub content: String,
    pub append: bool,
}

impl FsWrite {
    pub fn name(&self) -> (r: &'static str)
        ensures
            r@ == "fs_write"@,
    {
        "fs_write"
    }

    /// Write tools run without a permission round-trip; the jail bounds them.
    pub fn requires_permission(&self) -> (r: bool)
        ensures
            !r,
    {
        false
    }

    /// Reads the arguments: string `path` and `content`, optional `append`.
    pub fn parse_args(&self, args: &Json) -> (r: Result<WriteArgs, String>)
        ensures
            match string_arg_spec(*args, "path"@, "fs_write requires string `path`"@) {
                Err(e) => r matches Err(x) && x@ == e,
                Ok(p) => match string_arg_spec(*args, "content"@, "fs_write requires string `content`"@) {
                    Err(e) => r matches Err(x) && x@ == e,
                    Ok(c) => r matches Ok(w) && w.path@ == p && w.content@ == c && w.append == bool_arg_spec(*args, "append"@),
                },
            },
    {
        let path = string_arg(args, "path", "fs_write requires string `path`")?;
        let content = string_arg(args, "content", "fs_write requires string `content`")?;
        let append = bool_arg(args, "append");
        Ok(WriteArgs { path, content, append })
    }

    /// The result `{"bytes_written": <UTF-8 length of content>, "path": rel}`.
    pub fn output(&self, rel: &str, content: &str) -> (r: Json)
        ensures
            r is Object,
            entries(r).len() == 2,
            entries(r)[0].0@ == "bytes_written"@,
            entries(r)[0].1 == Json::Number(JsonNumber::PosInt(content.len() as u64)),
            entries(r)[1].0@ == "path"@,
            str_value(entries(r)[1].1) == Some(rel@),
    {
        let n = content.len();
        let mut p = String::new();
        push_str(&mut p, rel);
        let mut es: Vec<(String, Json)> = Vec::new();
        es.push(("bytes_written".to_string(), Json::Number(JsonNumber::PosInt(n as u64))));
        es.push(("path".to_string(), Json::String(p)));
        Json::Object(es)
    }
}

impl FsCreateDir {
    pub fn name(&self) -> (r: &'static str)
        ensures
            r@ == "fs_create_dir"@,
    {
        "fs_create_dir"
    }

    pub fn requires_permission(&self) -> (r: bool)
        ensures
            !r,
    {
        false
    }

    /// Reads the string argument `path`.
    pub fn parse_args(&self, args: &Json) -> (r: Result<String, String>)
        ensures
            res_view(r) == string_arg_spec(*args, "path"@, "fs_create_dir requires string `path`"@),
    {
        string_arg(args, "path", "fs_create_dir requires string `path`")
    }
}

impl FsRemove {
    pub fn name(&self) -> (r: &'static str)
        ensures
            r@ == "fs_remove"@,
    {
        "fs_remove"
    }

    pub fn requires_permission(&self) -> (r: bool)
        ensures
            !r,
    {
        false
    }

    /// Reads the string argument `path`, refusing a blank one (it names the
    /// root itself).
    pub fn parse_args(&self, args: &Json) -> (r: Result<String, String>)
        ensures
            match string_arg_spec(*args, "path"@, "fs_remove requires string `path`"@) {
                Err(e) => r matches Err(x) && x@ == e,
                Ok(p) => if trim(p).len() == 0 {
                    r matches Err(x) && x@ == "cannot remove the tool root"@
                } else {
                    r matches Ok(x) && x@ == p
                },
            },
    {
        let rel = string_arg(args, "path", "fs_remove requires string `path`")?;
        let v = chars_of(rel.as_str());
        let (lo, hi) = trim_bounds(&v);
        if lo == hi {
            return Err("cannot remove the tool root".to_string());
        }
        Ok(rel)
    }

    /// Checks a resolved removal target: the root itself is refused (`.`,
    /// `a/..`-style paths canonicalize to it).
    pub fn check_target(&self, resolved: &str) -> (r: Result<(), String>)
        ensures
            same_path(resolved@, self.0.root_path()) ==> (r matches Err(x) && x@
                == "cannot remove the tool root"@),
            !same_path(resolved@, self.0.root_path()) ==> r is Ok,
    {
        if paths_equal(resolved, self.0.root()) {
            Err("cannot remove the tool root".to_string())
        } else {
            Ok(())
        }
    }
}

// ---------------------------------------------------------------------------
// Edits
// ---------------------------------------------------------------------------

/// Number of non-overlapping occurrences of `n` in `h`, scanning from the
/// left (`str::matches(..).count()`).
pub open spec fn count_matches(h: Seq<char>, n: Seq<char>) -> nat
    decreases h.len(),
{
    if n.len() == 0 || h.len() < n.len() {
        0
    } else if h.take(n.len() as int) == n {
        1 + count_matches(h.skip(n.len() as int), n)
    } else {
        count_matches(h.drop_first(), n)
    }
}

/// `h` with every non-overlapping occurrence of `n` replaced by `r`
/// (`str::replace`).
pub open spec fn replace_all(h: Seq<char>, n: Seq<char>, r: Seq<char>) -> Seq<char>
    decreases h.len(),
{
    if n.len() == 0 || h.len() < n.len() {
        h
    } else if h.take(n.len() as int) == n {
        r + replace_all(h.skip(n.len() as int), n, r)
    } else {
        seq![h[0]] + replace_all(h.drop_first(), n, r)
    }
}

/// `h` with its first occurrence of `n` replaced by `r` (`str::replacen(.., 1)`).
pub open spec fn replace_first(h: Seq<char>, n: Seq<char>, r: Seq<char>) -> Seq<char>
    decreases h.len(),
{
    if n.len() == 0 || h.len() < n.len() {
        h
    } else if h.take(n.len() as int) == n {
        r + h.skip(n.len() as int)
    } else {
        seq![h[0]] + replace_first(h.drop_first(), n, r)
    }
}

/// What an `fs_edit` call asks for.
#[derive(Debug, PartialEq)]
pub struct EditArgs {
    pub path: String,
    pub old: String,
    pub new: String,
    pub replace_all: bool,
}

/// The outcome of planning an edit: the new content and the number of
/// replacements, or the refusal message.
pub open spec fn edit_plan_spec(rel: Seq<char>, content: Seq<char>, old: Seq<char>, new: Seq<char>, all: bool) -> Result<(Seq<char>, nat), Seq<char>> {
    let count = count_matches(content, old);
    if count == 0 {
        Err("`old` text not found in "@ + rel)
    } else if !all && count != 1 {
        Err("`old` occurs "@ + crate::text::decimal(count) + " times in "@ + rel
            + "; pass a longer unique match or set replace_all"@)
    } else if all {
        Ok((replace_all(content, old, new), count))
    } else {
        Ok((replace_first(content, old, new), 1))
    }
}

fn matches_at(h: &[char], i: usize, n: &[char]) -> (r: bool)
    requires
        i <= h@.len(),
    ensures
        r == (n@.len() <= h@.len() - i && h@.skip(i as int).take(n@.len() as int) == n@),
{
    if n.len() > h.len() - i {
        return false;
    }
    let mut j: usize = 0;
    let hl = h.len();
    while j < n.len()
        invariant
            hl == h@.len(),
            i <= h@.len(),
            n@.len() <= h@.len() - i,
            j <= n@.len(),
            forall|k: int| 0 <= k < j ==> h@[i + k] == n@[k],
        decreases n.len() - j,
    {
        if h[i + j] != n[j] {
            assert(h@.skip(i as int).take(n@.len() as int)[j as int] != n@[j as int]);
            return false;
        }
        j = j + 1;
    }
    assert(h@.skip(i as int).take(n@.len() as int) =~= n@);
    true
}

/// Counts the occurrences and builds the replaced text in one scan.
fn scan_replace(h: &[char], n: &[char], r: &[char], all: bool) -> (res: (usize, Vec<char>))
    requires
        n@.len() > 0,
    ensures
        res.0 == count_matches(h@, n@),
        res.1@ == if all {
            replace_all(h@, n@, r@)
        } else {
            replace_first(h@, n@, r@)
        },
{
    let mut out: Vec<char> = Vec::new();
    let mut count: usize = 0;
    let mut i: usize = 0;
    let mut replaced = false;
    assert(h@.skip(0) =~= h@);
    while i < h.len()
        invariant
            n@.len() > 0,
            i <= h@.len(),
            count <= i,
            count + count_matches(h@.skip(i as int), n@) == count_matches(h@, n@),
            all || !replaced ==> out@ + (if all {
                replace_all(h@.skip(i as int), n@, r@)
            } else {
                replace_first(h@.skip(i as int), n@, r@)
            }) == if all {
                replace_all(h@, n@, r@)
            } else {
                replace_first(h@, n@, r@)
            },
            !all && replaced ==> out@ + h@.skip(i as int) == replace_first(h@, n@, r@),
        decreases h.len() - i,
    {
        let ghost t = h@.skip(i as int);
        if matches_at(h, i, n) {
            assert(t.skip(n@.len() as int) =~= h@.skip(i + n@.len()));
            if all || !replaced {
                let mut k: usize = 0;
                let ghost before = out@;
                while k < r.len()
                    invariant
                        k <= r@.len(),
                        out@ == before + r@.take(k as int),
                    decreases r.len() - k,
                {
                    out.push(r[k]);
                    assert(r@.take(k + 1) =~= r@.take(k as int).push(r@[k as int]));
                    k = k + 1;
                }
                assert(r@.take(r@.len() as int) =~= r@);
                assert(before + (r@ + h@.skip(i + n@.len())) =~= out@ + h@.skip(i + n@.len()));
                assert(before + (r@ + replace_all(h@.skip(i + n@.len()), n@, r@)) =~= out@
                    + replace_all(h@.skip(i + n@.len()), n@, r@));
                replaced = true;
            } else {
                let mut k: usize = 0;
                let ghost before = out@;
                let hl = h.len();
                while k < n.len()
                    invariant
                        hl == h@.len(),
                        i <= h@.len(),
                        n@.len() <= h@.len() - i,
                        k <= n@.len(),
                        out@ == before + h@.subrange(i as int, i + k),
                    decreases n.len() - k,
                {
                    out.push(h[i + k]);
                    assert(h@.subrange(i as int, i + k + 1) =~= h@.subrange(i as int, i + k).push(h@[i + k]));
                    k = k + 1;
                }
                assert(h@.skip(i as int) =~= h@.subrange(i as int, i + n@.len()) + h@.skip(i + n@.len()));
            }
            count = count + 1;
            i = i + n.len();
        } else {
            let c = h[i];
            out.push(c);
            assert(t[0] == c);
            proof {
                if n@.len() <= t.len() {
                    assert(t.drop_first() =~= h@.skip(i + 1));
                } else {
                    assert(h@.skip(i + 1).len() < n@.len());
                }
            }
            assert(t =~= seq![c] + h@.skip(i + 1));
            i = i + 1;
        }
    }
    assert(h@.skip(i as int) =~= Seq::<char>::empty());
    (count, out)
}

/// Appends `v` to `s`.
fn push_all(s: &mut String, v: &Vec<char>)
    ensures
        final(s)@ == old(s)@ + v@,
{
    push_chars(s, v, 0, v.len());
    assert(v@.subrange(0, v@.len() as int) =~= v@);
}

impl FsEdit {
    pub fn name(&self) -> (r: &'static str)
        ensures
            r@ == "fs_edit"@,
    {
        "fs_edit"
    }

    pub fn requires_permission(&self) -> (r: bool)
        ensures
            !r,
    {
        false
    }

    /// Reads the arguments: string `path`, `old` and `new`, optional
    /// `replace_all`; `old` must be non-empty and differ from `new`.
    pub fn parse_args(&self, args: &Json) -> (r: Result<EditArgs, String>)
        ensures
            match string_arg_spec(*args, "path"@, "fs_edit requires string `path`"@) {
                Err(e) => r matches Err(x) && x@ == e,
                Ok(p) => match string_arg_spec(*args, "old"@, "fs_edit requires string `old`"@) {
                    Err(e) => r matches Err(x) && x@ == e,
                    Ok(o) => match string_arg_spec(*args, "new"@, "fs_edit requires string `new`"@) {
                        Err(e) => r matches Err(x) && x@ == e,
                        Ok(n) => if o.len() == 0 {
                            r matches Err(x) && x@ == "`old` must be non-empty"@
                        } else if o == n {
                            r matches Err(x) && x@ == "`old` and `new` are identical; nothing to edit"@
                        } else {
                            r matches Ok(a) && a.path@ == p && a.old@ == o && a.new@ == n
                                && a.replace_all == bool_arg_spec(*args, "replace_all"@)
                        },
                    },
                },
            },
    {
        let path = string_arg(args, "path", "fs_edit requires string `path`")?;
        let old = string_arg(args, "old", "fs_edit requires string `old`")?;
        let new = string_arg(args, "new", "fs_edit requires string `new`")?;
        let ov = chars_of(old.as_str());
        let nv = chars_of(new.as_str());
        if ov.len() == 0 {
            return Err("`old` must be non-empty".to_string());
        }
        if crate::text::chars_eq(&ov, &nv) {
            return Err("`old` and `new` are identical; nothing to edit".to_string());
        }
        let replace_all = bool_arg(args, "replace_all");
        Ok(EditArgs { path, old, new, replace_all })
    }

    /// The message for a file that cannot be read as text.
    pub fn read_error(&self, rel: &str) -> (r: String)
        ensures
            r@ == "reading "@ + rel@ + " for edit (must be UTF-8 text)"@,
    {
        let mut m = String::new();
        push_str(&mut m, "reading ");
        push_str(&mut m, rel);
        push_str(&mut m, " for edit (must be UTF-8 text)");
        m
    }

    /// Plans the edit of `content`: the replaced text and the number of
    /// replacements; refused when `old` is absent, or ambiguous without
    /// `replace_all`.
    pub fn plan(&self, rel: &str, content: &str, old: &str, new: &str, replace_all: bool) -> (r: Result<(String, usize), String>)
        requires
            old@.len() > 0,
        ensures
            match edit_plan_spec(rel@, content@, old@, new@, replace_all) {
                Ok((t, n)) => r matches Ok((u, m)) && u@ == t && m == n,
                Err(e) => r matches Err(x) && x@ == e,
            },
    {
        let h = chars_of(content);
        let n = chars_of(old);
        let rv = chars_of(new);
        let (count, out) = scan_replace(&h, &n, &rv, replace_all);
        if count == 0 {
            return Err(concat2("`old` text not found in ", rel));
        }
        if !replace_all && count != 1 {
            let mut m = String::new();
            push_str(&mut m, "`old` occurs ");
            push_decimal(&mut m, count as u64);
            push_str(&mut m, " times in ");
            push_str(&mut m, rel);
            push_str(&mut m, "; pass a longer unique match or set replace_all");
            return Err(m);
        }
        let mut updated = String::new();
        push_all(&mut updated, &out);
        Ok((updated, if replace_all { count } else { 1 }))
    }

    /// The result `{"path": rel, "replacements": n}`.
    pub fn output(&self, rel: &str, replacements: usize) -> (r: Json)
        ensures
            r is Object,
            entries(r).len() == 2,
            entries(r)[0].0@ == "path"@,
            str_value(entries(r)[0].1) == Some(rel@),
            entries(r)[1].0@ == "replacements"@,
            entries(r)[1].1 == Json::Number(JsonNumber::PosInt(replacements as u64)),
    {
        let mut p = String::new();
        push_str(&mut p, rel);
        let mut es: Vec<(String, Json)> = Vec::new();
        es.push(("path".to_string(), Json::String(p)));
        es.push(("replacements".to_string(), Json::Number(JsonNumber::PosInt(replacements as u64))));
        Json::Object(es)
    }
}

/// Text without an occurrence is left unchanged by either replacement.
pub proof fn law_no_match_no_change(h: Seq<char>, n: Seq<char>, r: Seq<char>)
    requires
        count_matches(h, n) == 0,
    ensures
        replace_all(h, n, r) == h,
        replace_first(h, n, r) == h,
    decreases h.len(),
{
    if n.len() == 0 || h.len() < n.len() {
    } else if h.take(n.len() as int) == n {
    } else {
        law_no_match_no_change(h.drop_first(), n, r);
        assert(seq![h[0]] + h.drop_first() =~= h);
    }
}

/// With exactly one occurrence, replacing the first occurrence and
/// replacing all of them give the same text.
pub proof fn law_unique_match_replaces_alike(h: Seq<char>, n: Seq<char>, r: Seq<char>)
    requires
        count_matches(h, n) == 1,
    ensures
        replace_first(h, n, r) == replace_all(h, n, r),
    decreases h.len(),
{
    if h.take(n.len() as int) == n {
        law_no_match_no_change(h.skip(n.len() as int), n, r);
    } else {
        law_unique_match_replaces_alike(h.drop_first(), n, r);
    }
}

/// An accepted edit reports exactly the number of occurrences it replaced,
/// and with a unique occurrence `replace_all` changes nothing.
pub proof fn law_edit_reports_its_replacements(rel: Seq<char>, content: Seq<char>, old: Seq<char>, new: Seq<char>, all: bool)
    ensures
        edit_plan_spec(rel, content, old, new, all) matches Ok((t, k)) ==> k == count_matches(content, old),
        count_matches(content, old) == 1 ==> edit_plan_spec(rel, content, old, new, true)
            == edit_plan_spec(rel, content, old, new, false),
{
    if count_matches(content, old) == 1 {
        law_unique_match_replaces_alike(content, old, new);
    }
}

/// The parent requested for an accepted path is the candidate's own parent
/// (`Path::parent`): the candidate `root/rel` with its last component
/// dropped. A refused path gives the refusal; a candidate without a parent
/// gives no request.
pub proof fn law_parent_request_is_the_candidates_parent(root: Seq<char>, rel: Seq<char>)
    ensures
        relative_spec(root, rel) is Err ==> parent_request_spec(root, rel) == relative_spec(root, rel),
        relative_spec(root, rel) is Ok ==> match parent_path(path_join(root, rel)) {
            Some(p) => parent_request_spec(root, rel) == Ok::<Seq<char>, Seq<char>>(p),
            None => parent_request_spec(root, rel) is Err,
        },
        parent_request_spec(root, rel) matches Ok(p) ==> p == render(components(path_join(root, rel)).drop_last()),
{
}

} // verus!
