//! Scanning: the modelled filesystem, the ignore policy, the marker
//! registry, the project classifier, and the recursive tree builder.

use vstd::prelude::*;
use vstd::string::{StrSliceExecFns, StringExecFns};

use crate::error::{Error, ErrorView};
use crate::project::{
    Info, InfoView, ItemView, NamespaceItem, NamespaceView, Project, RootNamespace, SubNamespace,
    items_view,
};
use crate::slug::slug_of;

verus! {

// ---------------------------------------------------------------------------
// String helpers
// ---------------------------------------------------------------------------
/// `needle` occurs in `hay` as a contiguous run of characters.
pub open spec fn is_substring_of(needle: Seq<char>, hay: Seq<char>) -> bool {
    exists|i: int|
        0 <= i && i + needle.len() <= hay.len() && #[trigger] hay.subrange(i, i + needle.len())
            == needle
}

/// Character-for-character string equality.
pub(crate) fn str_eq(a: &str, b: &str) -> (r: bool)
    ensures
        r == (a@ == b@),
{
    let n = a.unicode_len();
    if n != b.unicode_len() {
        return false;
    }
    let mut i: usize = 0;
    while i < n
        invariant
            i <= n,
            n == a@.len(),
            n == b@.len(),
            forall|t: int| 0 <= t < i ==> a@[t] == b@[t],
        decreases n - i,
    {
        if a.get_char(i) != b.get_char(i) {
            return false;
        }
        i = i + 1;
    }
    proof {
        assert(a@ =~= b@);
    }
    true
}

/// Whether `hay` carries `needle` at position `at`.
fn matches_at(hay: &str, needle: &str, at: usize) -> (r: bool)
    requires
        hay@.len() <= usize::MAX,
        at + needle@.len() <= hay@.len(),
    ensures
        r == (hay@.subrange(at as int, at + needle@.len()) == needle@),
{
    let n = needle.unicode_len();
    let mut j: usize = 0;
    while j < n
        invariant
            j <= n,
            n == needle@.len(),
            hay@.len() <= usize::MAX,
            at + n <= hay@.len(),
            forall|t: int| 0 <= t < j ==> hay@[at + t] == needle@[t],
        decreases n - j,
    {
        if hay.get_char(at + j) != needle.get_char(j) {
            proof {
                assert(hay@.subrange(at as int, at + needle@.len())[j as int] == hay@[at + j]);
            }
            return false;
        }
        j = j + 1;
    }
    proof {
        assert(hay@.subrange(at as int, at + needle@.len()) =~= needle@);
    }
    true
}

/// Whether `needle` occurs anywhere in `hay`.
fn contains_str(hay: &str, needle: &str) -> (r: bool)
    ensures
        r == is_substring_of(needle@, hay@),
{
    let h = hay.unicode_len();
    let n = needle.unicode_len();
    if n > h {
        return false;
    }
    if needle.is_empty() {
        proof {
            assert(hay@.subrange(0, 0 + needle@.len() as int) =~= needle@);
            assert(is_substring_of(needle@, hay@));
        }
        return true;
    }
    let mut i: usize = 0;
    while i <= h - n
        invariant
            1 <= n <= h,
            h == hay@.len(),
            n == needle@.len(),
            i <= h - n + 1,
            forall|t: int| 0 <= t < i ==> #[trigger] hay@.subrange(t, t + needle@.len())
                != needle@,
        decreases h - i,
    {
        if matches_at(hay, needle, i) {
            return true;
        }
        i = i + 1;
    }
    false
}

// ---------------------------------------------------------------------------
// The modelled filesystem
// ---------------------------------------------------------------------------
/// One directory entry, with everything a scan may ask of it: its name, and
/// for a directory its full entry list (hidden entries included) or the fact
/// that it could not be read.
pub enum FsTree {
    /// Any entry that is not a directory.
    File { name: String },
    /// A readable directory and all of its entries.
    Dir { name: String, entries: Vec<FsTree> },
    /// A directory whose entries cannot be read; `cause` carries the
    /// underlying report.
    UnreadableDir { name: String, cause: String },
}

impl FsTree {
    /// The entry's own name.
    pub open spec fn spec_name(&self) -> Seq<char> {
        match self {
            FsTree::File { name } => name@,
            FsTree::Dir { name, .. } => name@,
            FsTree::UnreadableDir { name, .. } => name@,
        }
    }

    pub fn name(&self) -> (r: &String)
        ensures
            r@ == self.spec_name(),
    {
        match self {
            FsTree::File { name } => name,
            FsTree::Dir { name, .. } => name,
            FsTree::UnreadableDir { name, .. } => name,
        }
    }
}

/// The names of a directory's entries, in listing order.
pub open spec fn entry_names(entries: Seq<FsTree>) -> Seq<Seq<char>> {
    entries.map_values(|e: FsTree| e.spec_name())
}

/// The path of a child entry: the directory's path, a slash, the name.
pub open spec fn child_path(dir: Seq<char>, name: Seq<char>) -> Seq<char> {
    dir + seq!['/'] + name
}

fn join_path(dir: &str, name: &str) -> (r: String)
    ensures
        r@ == child_path(dir@, name@),
{
    let mut s = dir.to_owned();
    s.append("/");
    s.append(name);
    proof {
        reveal_strlit("/");
        assert("/"@ =~= seq!['/']);
        assert(s@ =~= child_path(dir@, name@));
    }
    s
}

// ---------------------------------------------------------------------------
// Ignore policy
// ---------------------------------------------------------------------------
/// A hidden entry: its name starts with a dot.
pub open spec fn spec_hidden(name: Seq<char>) -> bool {
    name.len() > 0 && name[0] == '.'
}

fn is_hidden(name: &str) -> (r: bool)
    ensures
        r == spec_hidden(name@),
{
    if name.is_empty() {
        false
    } else {
        name.get_char(0) == '.'
    }
}

/// How listing filters a directory's entries before recursion. Hidden
/// entries go when `ignore_hidden` is set, and an entry goes when its name
/// contains any configured pattern. The policy never applies to the scan
/// root itself, only to children.
pub struct DetectorConfig {
    pub ignore_hidden: bool,
    pub ignore_patterns: Vec<String>,
}

/// Whether the ignore policy keeps an entry of this name in the listing.
pub open spec fn spec_listed(name: Seq<char>, cfg: DetectorConfig) -> bool {
    &&& !(cfg.ignore_hidden && spec_hidden(name))
    &&& forall|k: int|
        0 <= k < cfg.ignore_patterns@.len() ==> !is_substring_of(
            #[trigger] cfg.ignore_patterns@[k]@,
            name,
        )
}

impl DetectorConfig {
    pub fn ignore_hidden_files(self, ignore: bool) -> (r: Self)
        ensures
            r.ignore_hidden == ignore,
            r.ignore_patterns == self.ignore_patterns,
    {
        DetectorConfig { ignore_hidden: ignore, ignore_patterns: self.ignore_patterns }
    }

    pub fn ignore_pattern(self, pattern: String) -> (r: Self)
        ensures
            r.ignore_hidden == self.ignore_hidden,
            r.ignore_patterns@ == self.ignore_patterns@.push(pattern),
    {
        let mut patterns = self.ignore_patterns;
        patterns.push(pattern);
        DetectorConfig { ignore_hidden: self.ignore_hidden, ignore_patterns: patterns }
    }

    /// Applies the ignore policy to one entry name.
    fn keeps(&self, name: &str) -> (r: bool)
        ensures
            r == spec_listed(name@, *self),
    {
        if self.ignore_hidden && is_hidden(name) {
            return false;
        }
        let mut k: usize = 0;
        while k < self.ignore_patterns.len()
            invariant
                k <= self.ignore_patterns@.len(),
                !(self.ignore_hidden && spec_hidden(name@)),
                forall|t: int|
                    0 <= t < k ==> !is_substring_of(
                        #[trigger] self.ignore_patterns@[t]@,
                        name@,
                    ),
            decreases self.ignore_patterns@.len() - k,
        {
            if contains_str(name, self.ignore_patterns[k].as_str()) {
                return false;
            }
            k = k + 1;
        }
        true
    }
}

impl Default for DetectorConfig {
    /// Hidden entries are ignored by default; no patterns are configured.
    fn default() -> (r: Self)
        ensures
            r.ignore_hidden,
            r.ignore_patterns@ =~= Seq::<String>::empty(),
    {
        DetectorConfig { ignore_hidden: true, ignore_patterns: Vec::new() }
    }
}

// ---------------------------------------------------------------------------
// Marker registry and classifier
// ---------------------------------------------------------------------------
/// The recognized project ecosystems, in classification priority order: the
/// version-control marker first, then each build system.
#[derive(Clone, Copy, PartialEq, Eq, Structural, Debug)]
pub enum DetectorKind {
    Git,
    Zig,
    Cargo,
    Meson,
    Make,
    Cmake,
    Node,
    Nix,
    Go,
}

/// Whether any of an ecosystem's marker filenames occurs among the entry
/// names of a directory.
pub open spec fn marker_matches(kind: DetectorKind, names: Seq<Seq<char>>) -> bool {
    match kind {
        DetectorKind::Git => names.contains(".git"@),
        DetectorKind::Zig => names.contains("build.zig"@),
        DetectorKind::Cargo => names.contains("Cargo.toml"@),
        DetectorKind::Meson => names.contains("meson.build"@),
        DetectorKind::Make => names.contains("Makefile"@) || names.contains("makefile"@)
            || names.contains("GNUmakefile"@),
        DetectorKind::Cmake => names.contains("CMakeLists.txt"@),
        DetectorKind::Node => names.contains("package.json"@),
        DetectorKind::Nix => names.contains("default.nix"@) || names.contains("shell.nix"@)
            || names.contains("flake.nix"@),
        DetectorKind::Go => names.contains("go.mod"@),
    }
}

/// Classification: the first rule in priority order whose marker set
/// intersects the entry names wins; a directory matching no rule is a
/// namespace, not a project.
pub open spec fn spec_classify(names: Seq<Seq<char>>) -> Option<DetectorKind> {
    if marker_matches(DetectorKind::Git, names) {
        Some(DetectorKind::Git)
    } else if marker_matches(DetectorKind::Zig, names) {
        Some(DetectorKind::Zig)
    } else if marker_matches(DetectorKind::Cargo, names) {
        Some(DetectorKind::Cargo)
    } else if marker_matches(DetectorKind::Meson, names) {
        Some(DetectorKind::Meson)
    } else if marker_matches(DetectorKind::Make, names) {
        Some(DetectorKind::Make)
    } else if marker_matches(DetectorKind::Cmake, names) {
        Some(DetectorKind::Cmake)
    } else if marker_matches(DetectorKind::Node, names) {
        Some(DetectorKind::Node)
    } else if marker_matches(DetectorKind::Nix, names) {
        Some(DetectorKind::Nix)
    } else if marker_matches(DetectorKind::Go, names) {
        Some(DetectorKind::Go)
    } else {
        None
    }
}

/// Whether the full entry set carries an entry of exactly this name. This is
/// the direct existence check used for classification: it sees hidden
/// entries that the listing filter would suppress.
fn contains_name(entries: &Vec<FsTree>, target: &str) -> (r: bool)
    ensures
        r == entry_names(entries@).contains(target@),
{
    let mut i: usize = 0;
    while i < entries.len()
        invariant
            i <= entries@.len(),
            forall|t: int| 0 <= t < i ==> entry_names(entries@)[t] != target@,
        decreases entries@.len() - i,
    {
        if str_eq(entries[i].name().as_str(), target) {
            proof {
                assert(entry_names(entries@)[i as int] == target@);
            }
            return true;
        }
        i = i + 1;
    }
    proof {
        assert forall|t: int| 0 <= t < entry_names(entries@).len() implies entry_names(entries@)[t]
            != target@ by {}
    }
    false
}

// ---------------------------------------------------------------------------
// The scan itself
// ---------------------------------------------------------------------------
/// Walks a directory tree rooted at `root` and catalogues it.
pub struct Detector {
    pub root: String,
    pub config: DetectorConfig,
}

/// What one listed-or-not entry contributes to its parent's items: nothing
/// (filtered out, or not a directory), a catalog item, or a fatal error.
pub open spec fn spec_scan_entry(e: FsTree, cfg: DetectorConfig, dir: Seq<char>) -> Option<
    Result<ItemView, ErrorView>,
>
    decreases e, 0int,
{
    if !spec_listed(e.spec_name(), cfg) {
        None
    } else {
        match e {
            FsTree::File { .. } => None,
            FsTree::UnreadableDir { name, cause } => Some(
                Err(ErrorView::DirectoryUnreadable { path: child_path(dir, name@), cause: cause@ }),
            ),
            FsTree::Dir { name, entries } => {
                if spec_classify(entry_names(entries@)) is Some {
                    Some(
                        Ok(
                            ItemView::Project(
                                InfoView {
                                    name: name@,
                                    slug: slug_of(name@),
                                    path: child_path(dir, name@),
                                },
                            ),
                        ),
                    )
                } else {
                    match spec_scan_items(entries, 0, cfg, child_path(dir, name@)) {
                        Ok(items) => Some(
                            Ok(
                                ItemView::Namespace(
                                    NamespaceView {
                                        info: InfoView {
                                            name: name@,
                                            slug: slug_of(name@),
                                            path: child_path(dir, name@),
                                        },
                                        items,
                                    },
                                ),
                            ),
                        ),
                        Err(e) => Some(Err(e)),
                    }
                }
            },
        }
    }
}

/// The items of a directory's entries from position `i` on, or the first
/// fatal error among them.
pub open spec fn spec_scan_items(
    entries: Vec<FsTree>,
    i: int,
    cfg: DetectorConfig,
    dir: Seq<char>,
) -> Result<Seq<ItemView>, ErrorView>
    decreases entries, entries@.len() - i,
{
    if i < 0 || i >= entries@.len() {
        Ok(Seq::empty())
    } else {
        match spec_scan_entry(entries@[i], cfg, dir) {
            None => spec_scan_items(entries, i + 1, cfg, dir),
            Some(Err(e)) => Err(e),
            Some(Ok(item)) => match spec_scan_items(entries, i + 1, cfg, dir) {
                Ok(rest) => Ok(seq![item] + rest),
                Err(e) => Err(e),
            },
        }
    }
}

/// Prepends already-catalogued items to the outcome of the remaining scan.
pub open spec fn scan_compose(
    prefix: Seq<ItemView>,
    rest: Result<Seq<ItemView>, ErrorView>,
) -> Result<Seq<ItemView>, ErrorView> {
    match rest {
        Ok(items) => Ok(prefix + items),
        Err(e) => Err(e),
    }
}

/// The whole scan: the root is never classified and never filtered; only its
/// children are. Its identity is synthesized. An unreadable root, or a root
/// that is no directory, is a fatal error.
pub open spec fn spec_detect(root_path: Seq<char>, cfg: DetectorConfig, tree: FsTree) -> Result<
    NamespaceView,
    ErrorView,
> {
    match tree {
        FsTree::Dir { entries, .. } => match spec_scan_items(entries, 0, cfg, root_path) {
            Ok(items) => Ok(
                NamespaceView {
                    info: InfoView { name: "Root"@, slug: "root"@, path: root_path },
                    items,
                },
            ),
            Err(e) => Err(e),
        },
        FsTree::File { .. } => Err(
            ErrorView::DirectoryUnreadable { path: root_path, cause: "not a directory"@ },
        ),
        FsTree::UnreadableDir { cause, .. } => Err(
            ErrorView::DirectoryUnreadable { path: root_path, cause: cause@ },
        ),
    }
}

/// The shape of a scan outcome.
pub open spec fn scan_result_view(r: Result<Vec<NamespaceItem>, Error>) -> Result<
    Seq<ItemView>,
    ErrorView,
> {
    match r {
        Ok(v) => Ok(items_view(v@)),
        Err(e) => Err(e@),
    }
}

/// The shape of a whole detection outcome.
pub open spec fn detect_result_view(r: Result<RootNamespace, Error>) -> Result<
    NamespaceView,
    ErrorView,
> {
    match r {
        Ok(ns) => Ok(ns@),
        Err(e) => Err(e@),
    }
}

proof fn lemma_scan_items_step(entries: Vec<FsTree>, i: int, cfg: DetectorConfig, dir: Seq<char>)
    requires
        0 <= i < entries@.len(),
    ensures
        spec_scan_items(entries, i, cfg, dir) == (match spec_scan_entry(entries@[i], cfg, dir) {
            None => spec_scan_items(entries, i + 1, cfg, dir),
            Some(Err(e)) => Err(e),
            Some(Ok(item)) => scan_compose(seq![item], spec_scan_items(entries, i + 1, cfg, dir)),
        }),
{
}

proof fn lemma_scan_compose_assoc(
    a: Seq<ItemView>,
    b: Seq<ItemView>,
    r: Result<Seq<ItemView>, ErrorView>,
)
    ensures
        scan_compose(a, scan_compose(b, r)) == scan_compose(a + b, r),
{
    match r {
        Ok(items) => {
            assert(a + (b + items) =~= (a + b) + items);
        },
        Err(_) => {},
    }
}

impl Detector {
    pub fn new(root: String) -> (r: Self)
        ensures
            r.root == root,
            r.config.ignore_hidden,
            r.config.ignore_patterns@ =~= Seq::<String>::empty(),
    {
        Detector { root, config: DetectorConfig::default() }
    }

    pub fn with_config(root: String, config: DetectorConfig) -> (r: Self)
        ensures
            r.root == root,
            r.config == config,
    {
        Detector { root, config }
    }

    /// Classifies a directory by its full entry set: the first matching rule
    /// in priority order, or nothing.
    pub fn classify(&self, entries: &Vec<FsTree>) -> (r: Option<DetectorKind>)
        ensures
            r == spec_classify(entry_names(entries@)),
    {
        if self.detect_git(entries) {
            Some(DetectorKind::Git)
        } else if self.detect_zig(entries) {
            Some(DetectorKind::Zig)
        } else if self.detect_cargo(entries) {
            Some(DetectorKind::Cargo)
        } else if self.detect_meson(entries) {
            Some(DetectorKind::Meson)
        } else if self.detect_make(entries) {
            Some(DetectorKind::Make)
        } else if self.detect_cmake(entries) {
            Some(DetectorKind::Cmake)
        } else if self.detect_node(entries) {
            Some(DetectorKind::Node)
        } else if self.detect_nix(entries) {
            Some(DetectorKind::Nix)
        } else if self.detect_go(entries) {
            Some(DetectorKind::Go)
        } else {
            None
        }
    }

    fn detect_git(&self, entries: &Vec<FsTree>) -> (r: bool)
        ensures
            r == marker_matches(DetectorKind::Git, entry_names(entries@)),
    {
        contains_name(entries, ".git")
    }

    fn detect_zig(&self, entries: &Vec<FsTree>) -> (r: bool)
        ensures
            r == marker_matches(DetectorKind::Zig, entry_names(entries@)),
    {
        contains_name(entries, "build.zig")
    }

    fn detect_cargo(&self, entries: &Vec<FsTree>) -> (r: bool)
        ensures
            r == marker_matches(DetectorKind::Cargo, entry_names(entries@)),
    {
        contains_name(entries, "Cargo.toml")
    }

    fn detect_meson(&self, entries: &Vec<FsTree>) -> (r: bool)
        ensures
            r == marker_matches(DetectorKind::Meson, entry_names(entries@)),
    {
        contains_name(entries, "meson.build")
    }

    fn detect_make(&self, entries: &Vec<FsTree>) -> (r: bool)
        ensures
            r == marker_matches(DetectorKind::Make, entry_names(entries@)),
    {
        contains_name(entries, "Makefile") || contains_name(entries, "makefile")
            || contains_name(entries, "GNUmakefile")
    }

    fn detect_cmake(&self, entries: &Vec<FsTree>) -> (r: bool)
        ensures
            r == marker_matches(DetectorKind::Cmake, entry_names(entries@)),
    {
        contains_name(entries, "CMakeLists.txt")
    }

    fn detect_node(&self, entries: &Vec<FsTree>) -> (r: bool)
        ensures
            r == marker_matches(DetectorKind::Node, entry_names(entries@)),
    {
        contains_name(entries, "package.json")
    }

    fn detect_nix(&self, entries: &Vec<FsTree>) -> (r: bool)
        ensures
            r == marker_matches(DetectorKind::Nix, entry_names(entries@)),
    {
        contains_name(entries, "default.nix") || contains_name(entries, "shell.nix")
            || contains_name(entries, "flake.nix")
    }

    fn detect_go(&self, entries: &Vec<FsTree>) -> (r: bool)
        ensures
            r == marker_matches(DetectorKind::Go, entry_names(entries@)),
    {
        contains_name(entries, "go.mod")
    }

    /// Classifies the directory `name` at `path` with entry set `entries`,
    /// and on a match constructs the project.
    fn detect_project(&self, name: &str, path: &str, entries: &Vec<FsTree>) -> (r: Option<Project>)
        ensures
            spec_classify(entry_names(entries@)) is Some ==> r is Some && r->0@ == (InfoView {
                name: name@,
                slug: slug_of(name@),
                path: path@,
            }),
            spec_classify(entry_names(entries@)) is None ==> r is None,
    {
        if self.classify(entries).is_some() {
            Some(Project { info: Info::parse_dir_path(name, path) })
        } else {
            None
        }
    }

    /// Catalogues the children of one directory, recursing into unclassified
    /// child directories.
    fn parse_path(&self, entries: &Vec<FsTree>, dir_path: &str) -> (r: Result<
        Vec<NamespaceItem>,
        Error,
    >)
        ensures
            scan_result_view(r) == spec_scan_items(*entries, 0, self.config, dir_path@),
        decreases *entries,
    {
        let mut items: Vec<NamespaceItem> = Vec::new();
        let mut i: usize = 0;
        proof {
            assert(items_view(items@) =~= Seq::<ItemView>::empty());
        }
        while i < entries.len()
            invariant
                i <= entries@.len(),
                scan_compose(
                    items_view(items@),
                    spec_scan_items(*entries, i as int, self.config, dir_path@),
                ) == spec_scan_items(*entries, 0, self.config, dir_path@),
            decreases entries@.len() - i,
        {
            let ghost prev_iv = items_view(items@);
            proof {
                lemma_scan_items_step(*entries, i as int, self.config, dir_path@);
            }
            match &entries[i] {
                FsTree::File { .. } => {
                    proof {
                        assert(spec_scan_entry(entries@[i as int], self.config, dir_path@)
                            is None);
                    }
                },
                FsTree::Dir { name, entries: child_entries } => {
                    if self.config.keeps(name.as_str()) {
                        let cp = join_path(dir_path, name.as_str());
                        match self.detect_project(name.as_str(), cp.as_str(), child_entries) {
                            Some(project) => {
                                let ghost item = item_view_of_project(project);
                                items.push(NamespaceItem::Project(project));
                                proof {
                                    assert(items_view(items@) =~= prev_iv + seq![item]);
                                    lemma_scan_compose_assoc(
                                        prev_iv,
                                        seq![item],
                                        spec_scan_items(
                                            *entries,
                                            i as int + 1,
                                            self.config,
                                            dir_path@,
                                        ),
                                    );
                                }
                            },
                            None => {
                                proof {
                                    assert(decreases_to!(*entries => entries@[i as int]));
                                    assert(entries@[i as int] == FsTree::Dir {
                                        name: *name,
                                        entries: *child_entries,
                                    });
                                    assert(decreases_to!(entries@[i as int] =>
                                        entries@[i as int]->Dir_entries));
                                    assert(decreases_to!(*entries => *child_entries));
                                }
                                match self.parse_path(child_entries, cp.as_str()) {
                                    Ok(sub_items) => {
                                        let info = Info::parse_dir_path(name.as_str(), cp.as_str());
                                        let ns = SubNamespace::with_items(info, sub_items);
                                        let ghost item = ItemView::Namespace(ns@);
                                        items.push(NamespaceItem::Namespace(ns));
                                        proof {
                                            assert(items_view(items@) =~= prev_iv + seq![item]);
                                            lemma_scan_compose_assoc(
                                                prev_iv,
                                                seq![item],
                                                spec_scan_items(
                                                    *entries,
                                                    i as int + 1,
                                                    self.config,
                                                    dir_path@,
                                                ),
                                            );
                                        }
                                    },
                                    Err(e) => {
                                        return Err(e);
                                    },
                                }
                            },
                        }
                    } else {
                        proof {
                            assert(spec_scan_entry(entries@[i as int], self.config, dir_path@)
                                is None);
                        }
                    }
                },
                FsTree::UnreadableDir { name, cause } => {
                    if self.config.keeps(name.as_str()) {
                        let cp = join_path(dir_path, name.as_str());
                        return Err(Error::DirectoryUnreadable { path: cp, cause: cause.clone() });
                    }
                    proof {
                        assert(spec_scan_entry(entries@[i as int], self.config, dir_path@)
                            is None);
                    }
                },
            }
            i = i + 1;
        }
        proof {
            assert(items_view(items@) + Seq::<ItemView>::empty() =~= items_view(items@));
        }
        Ok(items)
    }

    /// Scans the whole tree handed to it. The root's identity is synthesized
    /// and the root itself is never classified, even if it carries a marker.
    pub fn detect(self, tree: &FsTree) -> (r: Result<RootNamespace, Error>)
        ensures
            detect_result_view(r) == spec_detect(self.root@, self.config, *tree),
    {
        match tree {
            FsTree::Dir { entries, .. } => {
                match self.parse_path(entries, self.root.as_str()) {
                    Ok(items) => {
                        let info = Info {
                            name: "Root".to_owned(),
                            slug: "root".to_owned(),
                            path: self.root,
                        };
                        Ok(RootNamespace::with_items(info, items))
                    },
                    Err(e) => Err(e),
                }
            },
            FsTree::File { .. } => Err(
                Error::DirectoryUnreadable { path: self.root, cause: "not a directory".to_owned() },
            ),
            FsTree::UnreadableDir { cause, .. } => Err(
                Error::DirectoryUnreadable { path: self.root, cause: cause.clone() },
            ),
        }
    }
}

/// The shape of the catalog item a classified project becomes.
pub open spec fn item_view_of_project(p: Project) -> ItemView {
    ItemView::Project(p.info@)
}

// ---------------------------------------------------------------------------
// Laws of the scan
// ---------------------------------------------------------------------------
/// Marker priority: a directory whose entry names include the
/// version-control marker classifies by the version-control rule, whatever
/// build-system markers stand beside it.
pub proof fn lemma_marker_priority(names: Seq<Seq<char>>)
    requires
        names.contains(".git"@),
    ensures
        spec_classify(names) == Some(DetectorKind::Git),
{
}

/// Project precedence over namespace: a listed directory that carries any
/// recognized marker becomes a project leaf; its own entries are never
/// catalogued, however many subdirectories it holds.
pub proof fn lemma_project_precedence(
    name: String,
    entries: Vec<FsTree>,
    cfg: DetectorConfig,
    dir: Seq<char>,
)
    requires
        spec_listed(name@, cfg),
        spec_classify(entry_names(entries@)) is Some,
    ensures
        spec_scan_entry(FsTree::Dir { name, entries }, cfg, dir) == Some(
            Ok::<ItemView, ErrorView>(
                ItemView::Project(
                    InfoView { name: name@, slug: slug_of(name@), path: child_path(dir, name@) },
                ),
            ),
        ),
{
}

/// Ignore policy, applied to children: when hidden entries are ignored, a
/// hidden entry contributes nothing to the catalog, whatever it is.
pub proof fn lemma_hidden_child_ignored(e: FsTree, cfg: DetectorConfig, dir: Seq<char>)
    requires
        cfg.ignore_hidden,
        spec_hidden(e.spec_name()),
    ensures
        spec_scan_entry(e, cfg, dir) is None,
{
}

/// Ignore policy, not applied to the root: the scan root's own name plays no
/// part in the outcome, so a root that is itself hidden is still scanned.
pub proof fn lemma_root_never_filtered(
    name_a: String,
    name_b: String,
    entries: Vec<FsTree>,
    cfg: DetectorConfig,
    root_path: Seq<char>,
)
    ensures
        spec_detect(root_path, cfg, FsTree::Dir { name: name_a, entries }) == spec_detect(
            root_path,
            cfg,
            FsTree::Dir { name: name_b, entries },
        ),
{
}

/// `p` names an entry strictly inside the directory at `dir`: it continues
/// `dir` past a path separator.
pub open spec fn path_under(p: Seq<char>, dir: Seq<char>) -> bool {
    p.len() > dir.len() && p.subrange(0, dir.len() as int + 1) == dir + seq!['/']
}

/// The path of an item's own directory.
pub open spec fn item_path(item: ItemView) -> Seq<char> {
    match item {
        ItemView::Project(info) => info.path,
        ItemView::Namespace(ns) => ns.info.path,
    }
}

/// The catalog-tree invariant: every interior node's path is an ancestor of
/// every path below it.
pub open spec fn item_paths_nested(item: ItemView) -> bool
    decreases item,
{
    match item {
        ItemView::Project(_) => true,
        ItemView::Namespace(ns) => forall|k: int|
            0 <= k < ns.items.len() ==> path_under(item_path(#[trigger] ns.items[k]), ns.info.path)
                && item_paths_nested(ns.items[k]),
    }
}

proof fn lemma_child_path_under(dir: Seq<char>, name: Seq<char>)
    ensures
        path_under(child_path(dir, name), dir),
{
    assert(child_path(dir, name).subrange(0, dir.len() as int + 1) =~= dir + seq!['/']);
}

proof fn lemma_scan_entry_paths(e: FsTree, cfg: DetectorConfig, dir: Seq<char>)
    ensures
        spec_scan_entry(e, cfg, dir) matches Some(Ok(item)) ==> path_under(item_path(item), dir)
            && item_paths_nested(item),
    decreases e, 0int,
{
    if spec_scan_entry(e, cfg, dir) matches Some(Ok(item)) {
        match e {
            FsTree::File { .. } => {},
            FsTree::UnreadableDir { .. } => {},
            FsTree::Dir { name, entries } => {
                lemma_child_path_under(dir, name@);
                if spec_classify(entry_names(entries@)) is None {
                    lemma_scan_items_paths(entries, 0, cfg, child_path(dir, name@));
                }
            },
        }
    }
}

proof fn lemma_scan_items_paths(entries: Vec<FsTree>, i: int, cfg: DetectorConfig, dir: Seq<char>)
    ensures
        spec_scan_items(entries, i, cfg, dir) matches Ok(items) ==> forall|k: int|
            0 <= k < items.len() ==> path_under(item_path(#[trigger] items[k]), dir)
                && item_paths_nested(items[k]),
    decreases entries, entries@.len() - i,
{
    if 0 <= i < entries@.len() {
        lemma_scan_entry_paths(entries@[i], cfg, dir);
        lemma_scan_items_paths(entries, i + 1, cfg, dir);
        if spec_scan_items(entries, i, cfg, dir) is Ok {
            let items = spec_scan_items(entries, i, cfg, dir)->Ok_0;
            match spec_scan_entry(entries@[i], cfg, dir) {
                None => {},
                Some(Err(_)) => {},
                Some(Ok(item)) => {
                    let rest = spec_scan_items(entries, i + 1, cfg, dir)->Ok_0;
                    assert forall|k: int| 0 <= k < items.len() implies path_under(
                        item_path(#[trigger] items[k]),
                        dir,
                    ) && item_paths_nested(items[k]) by {
                        if k == 0 {
                            assert(items[k] == item);
                        } else {
                            assert(items[k] == rest[k - 1]);
                        }
                    }
                },
            }
        }
    }
}

/// The catalog-tree invariant holds of every successful scan: the root keeps
/// the given root path, each of its items lies strictly under it, and below
/// every namespace the same nesting repeats.
pub proof fn lemma_catalog_tree_invariant(root_path: Seq<char>, cfg: DetectorConfig, tree: FsTree)
    ensures
        spec_detect(root_path, cfg, tree) matches Ok(ns) ==> ns.info.path == root_path
            && forall|k: int|
            0 <= k < ns.items.len() ==> path_under(item_path(#[trigger] ns.items[k]), root_path)
                && item_paths_nested(ns.items[k]),
{
    if tree is Dir {
        lemma_scan_items_paths(tree->Dir_entries, 0, cfg, root_path);
    }
}

} // verus!

