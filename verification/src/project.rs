//! The catalog tree: projects, namespaces, and the slug builder that turns a
//! scanned tree into fully-qualified dotted identifiers.

use vstd::prelude::*;
use vstd::string::StringExecFns;

use crate::slug::{slug_of, slugify};

verus! {

/// Identity shared by projects and namespaces: the directory's own name, the
/// slug derived from it, and the directory's full path.
pub struct Info {
    pub name: String,
    pub slug: String,
    pub path: String,
}

/// The mathematical shape of an [`Info`].
pub struct InfoView {
    pub name: Seq<char>,
    pub slug: Seq<char>,
    pub path: Seq<char>,
}

impl View for Info {
    type V = InfoView;

    open spec fn view(&self) -> InfoView {
        InfoView { name: self.name@, slug: self.slug@, path: self.path@ }
    }
}

impl Info {
    /// Identity of the directory at `path` whose final name component is
    /// `name`: the slug is derived from the name.
    pub fn parse_dir_path(name: &str, path: &str) -> (r: Info)
        ensures
            r@.name == name@,
            r@.slug == slug_of(name@),
            r@.path == path@,
    {
        Info { name: name.to_owned(), slug: slugify(name), path: path.to_owned() }
    }
}

/// A leaf of the catalog: a directory recognized as a project.
pub struct Project {
    pub info: Info,
}

impl View for Project {
    type V = InfoView;

    open spec fn view(&self) -> InfoView {
        self.info@
    }
}

impl Project {
    pub fn new(name: String, slug: String, path: String) -> (r: Self)
        ensures
            r@ == (InfoView { name: name@, slug: slug@, path: path@ }),
    {
        Project { info: Info { name, slug, path } }
    }

    /// The project's filesystem path, ready for printing.
    pub fn fmt_path(&self) -> (r: String)
        ensures
            r@ == self@.path,
    {
        self.info.path.clone()
    }
}

/// One entry of a namespace: either a project or a nested namespace.
pub enum NamespaceItem {
    Project(Project),
    Namespace(SubNamespace),
}

/// A grouping directory that is not itself a project.
pub struct SubNamespace {
    pub info: Info,
    pub items: Vec<NamespaceItem>,
}

/// The synthesized namespace standing for the scan root.
pub struct RootNamespace {
    pub info: Info,
    pub items: Vec<NamespaceItem>,
}

/// The mathematical shape of a catalog item.
pub enum ItemView {
    Project(InfoView),
    Namespace(NamespaceView),
}

/// The mathematical shape of a namespace: its identity and its items, in
/// directory-listing order.
pub struct NamespaceView {
    pub info: InfoView,
    pub items: Seq<ItemView>,
}

/// The shape of one catalog item.
pub open spec fn item_view(item: NamespaceItem) -> ItemView
    decreases item,
{
    match item {
        NamespaceItem::Project(p) => ItemView::Project(p.info@),
        NamespaceItem::Namespace(ns) => ItemView::Namespace(
            NamespaceView { info: ns.info@, items: items_view(ns.items@) },
        ),
    }
}

/// The shapes of a namespace's items, in order.
pub open spec fn items_view(items: Seq<NamespaceItem>) -> Seq<ItemView>
    decreases items,
{
    Seq::new(
        items.len(),
        |i: int|
            if 0 <= i < items.len() {
                item_view(items[i])
            } else {
                arbitrary()
            },
    )
}

impl View for NamespaceItem {
    type V = ItemView;

    open spec fn view(&self) -> ItemView {
        item_view(*self)
    }
}

impl View for SubNamespace {
    type V = NamespaceView;

    open spec fn view(&self) -> NamespaceView {
        NamespaceView { info: self.info@, items: items_view(self.items@) }
    }
}

impl View for RootNamespace {
    type V = NamespaceView;

    open spec fn view(&self) -> NamespaceView {
        NamespaceView { info: self.info@, items: items_view(self.items@) }
    }
}

/// `prefix`, a dot, then `slug`.
pub open spec fn dotted(prefix: Seq<char>, slug: Seq<char>) -> Seq<char> {
    prefix + seq!['.'] + slug
}

/// How a namespace extends the aggregated slug handed down to it: its own
/// slug if the aggregate is still empty, else the dotted concatenation.
pub open spec fn combined_slug(aggregated: Seq<char>, own: Seq<char>) -> Seq<char> {
    if aggregated.len() == 0 {
        own
    } else {
        dotted(aggregated, own)
    }
}

/// The slugs a sub-namespace contributes, given the aggregated slug of its
/// ancestors.
pub open spec fn sub_slugs(ns: NamespaceView, aggregated: Seq<char>) -> Seq<Seq<char>>
    decreases ns,
{
    sub_items_slugs(ns.items, combined_slug(aggregated, ns.info.slug))
}

/// The slugs one item contributes inside a namespace whose accumulated slug
/// is `my_slug`.
pub open spec fn sub_item_slugs(item: ItemView, my_slug: Seq<char>) -> Seq<Seq<char>>
    decreases item,
{
    match item {
        ItemView::Project(info) => seq![dotted(my_slug, info.slug)],
        ItemView::Namespace(ns) => sub_slugs(ns, my_slug),
    }
}

/// The slugs a namespace's item list contributes, in order.
pub open spec fn sub_items_slugs(items: Seq<ItemView>, my_slug: Seq<char>) -> Seq<Seq<char>>
    decreases items,
{
    if items.len() == 0 {
        Seq::empty()
    } else {
        sub_item_slugs(items[0], my_slug) + sub_items_slugs(items.drop_first(), my_slug)
    }
}

/// The slugs one item contributes at the root: a root-level project's slug
/// carries no prefix at all.
pub open spec fn root_item_slugs(item: ItemView) -> Seq<Seq<char>> {
    match item {
        ItemView::Project(info) => seq![info.slug],
        ItemView::Namespace(ns) => sub_slugs(ns, Seq::empty()),
    }
}

/// Every project slug of the whole catalog, in depth-first pre-order.
pub open spec fn root_slugs(items: Seq<ItemView>) -> Seq<Seq<char>>
    decreases items,
{
    if items.len() == 0 {
        Seq::empty()
    } else {
        root_item_slugs(items[0]) + root_slugs(items.drop_first())
    }
}

impl RootNamespace {
    pub fn new(name: String, slug: String, path: String) -> (r: Self)
        ensures
            r@.info == (InfoView { name: name@, slug: slug@, path: path@ }),
            r@.items =~= Seq::<ItemView>::empty(),
    {
        RootNamespace { info: Info { name, slug, path }, items: Vec::new() }
    }

    pub(crate) fn with_items(info: Info, items: Vec<NamespaceItem>) -> (r: Self)
        ensures
            r@.info == info@,
            r@.items == items_view(items@),
    {
        RootNamespace { info, items }
    }

    /// Builds the fully-qualified slug of every project in the catalog, in
    /// depth-first pre-order.
    pub fn build_project_slugs(&self) -> (r: Vec<String>)
        ensures
            r.deep_view() == root_slugs(self@.items),
    {
        let views = Ghost(items_view(self.items@));
        let mut slugs: Vec<String> = Vec::new();
        let mut i: usize = 0;
        while i < self.items.len()
            invariant
                i <= self.items.len(),
                views@ == items_view(self.items@),
                slugs.deep_view() == root_slugs(views@.take(i as int)),
            decreases self.items.len() - i,
        {
            match &self.items[i] {
                NamespaceItem::Project(p) => {
                    slugs.push(p.info.slug.clone());
                    proof {
                        assert(slugs.deep_view() =~= root_slugs(views@.take(i as int)).push(
                            p.info.slug@,
                        ));
                    }
                },
                NamespaceItem::Namespace(ns) => {
                    let mut sub = ns.build_project_slugs("");
                    proof {
                        reveal_strlit("");
                        assert(""@ =~= Seq::<char>::empty());
                        assert(slugs.deep_view() + sub.deep_view() =~= root_slugs(
                            views@.take(i as int),
                        ) + sub_slugs(ns@, Seq::empty()));
                    }
                    slugs.append(&mut sub);
                },
            }
            proof {
                lemma_root_slugs_take_step(views@, i as int);
                assert(slugs.deep_view() =~= root_slugs(views@.take(i as int)) + root_item_slugs(
                    views@[i as int],
                ));
            }
            i = i + 1;
        }
        proof {
            assert(views@.take(i as int) =~= views@);
        }
        slugs
    }
}

impl SubNamespace {
    pub fn new(name: String, slug: String, path: String) -> (r: Self)
        ensures
            r@.info == (InfoView { name: name@, slug: slug@, path: path@ }),
            r@.items =~= Seq::<ItemView>::empty(),
    {
        SubNamespace { info: Info { name, slug, path }, items: Vec::new() }
    }

    pub(crate) fn with_items(info: Info, items: Vec<NamespaceItem>) -> (r: Self)
        ensures
            r@.info == info@,
            r@.items == items_view(items@),
    {
        SubNamespace { info, items }
    }

    /// Builds the slugs of every project below this namespace, prefixing each
    /// with the aggregated slug of the ancestors and this namespace's own.
    pub fn build_project_slugs(&self, aggregated_slug: &str) -> (r: Vec<String>)
        ensures
            r.deep_view() == sub_slugs(self@, aggregated_slug@),
        decreases *self,
    {
        let my_slug: String = if aggregated_slug.is_empty() {
            self.info.slug.clone()
        } else {
            let mut s = aggregated_slug.to_owned();
            s.append(".");
            s.append(self.info.slug.as_str());
            s
        };
        proof {
            reveal_strlit(".");
            assert("."@ =~= seq!['.']);
            assert(my_slug@ =~= combined_slug(aggregated_slug@, self.info.slug@));
        }
        let views = Ghost(items_view(self.items@));
        let mut slugs: Vec<String> = Vec::new();
        let mut i: usize = 0;
        while i < self.items.len()
            invariant
                i <= self.items.len(),
                views@ == items_view(self.items@),
                my_slug@ == combined_slug(aggregated_slug@, self.info.slug@),
                slugs.deep_view() == sub_items_slugs(views@.take(i as int), my_slug@),
            decreases self.items.len() - i,
        {
            match &self.items[i] {
                NamespaceItem::Project(p) => {
                    let mut s = my_slug.clone();
                    s.append(".");
                    s.append(p.info.slug.as_str());
                    slugs.push(s);
                    proof {
                        reveal_strlit(".");
                        assert("."@ =~= seq!['.']);
                        assert(slugs.deep_view() =~= sub_items_slugs(
                            views@.take(i as int),
                            my_slug@,
                        ).push(dotted(my_slug@, p.info.slug@)));
                    }
                },
                NamespaceItem::Namespace(ns) => {
                    proof {
                        assert(decreases_to!(*self => self.items));
                        assert(decreases_to!(self.items => self.items@[i as int]));
                        assert(self.items@[i as int] == NamespaceItem::Namespace(*ns));
                        assert(decreases_to!(
                            self.items@[i as int] => self.items@[i as int]->Namespace_0));
                    }
                    let mut sub = ns.build_project_slugs(my_slug.as_str());
                    proof {
                        assert(slugs.deep_view() + sub.deep_view() =~= sub_items_slugs(
                            views@.take(i as int),
                            my_slug@,
                        ) + sub_slugs(ns@, my_slug@));
                    }
                    slugs.append(&mut sub);
                },
            }
            proof {
                lemma_sub_items_slugs_take_step(views@, my_slug@, i as int);
                assert(slugs.deep_view() =~= sub_items_slugs(views@.take(i as int), my_slug@)
                    + sub_item_slugs(views@[i as int], my_slug@));
            }
            i = i + 1;
        }
        proof {
            assert(views@.take(i as int) =~= views@);
        }
        slugs
    }
}

/// Taking one more item contributes exactly that item's slugs at the end.
proof fn lemma_sub_items_slugs_take_step(items: Seq<ItemView>, my_slug: Seq<char>, i: int)
    requires
        0 <= i < items.len(),
    ensures
        sub_items_slugs(items.take(i + 1), my_slug) == sub_items_slugs(items.take(i), my_slug)
            + sub_item_slugs(items[i], my_slug),
    decreases i,
{
    let t = items.take(i + 1);
    if i == 0 {
        assert(t.drop_first() =~= Seq::<ItemView>::empty());
        assert(items.take(0) =~= Seq::<ItemView>::empty());
        assert(sub_items_slugs(t, my_slug) =~= sub_items_slugs(items.take(0), my_slug)
            + sub_item_slugs(items[0], my_slug));
    } else {
        let d = items.drop_first();
        lemma_sub_items_slugs_take_step(d, my_slug, i - 1);
        assert(t.drop_first() =~= d.take(i));
        assert(items.take(i).drop_first() =~= d.take(i - 1));
        assert(d[i - 1] == items[i]);
        assert(sub_items_slugs(items.take(i + 1), my_slug) =~= sub_items_slugs(
            items.take(i),
            my_slug,
        ) + sub_item_slugs(items[i], my_slug));
    }
}

/// Taking one more root item contributes exactly that item's slugs at the end.
proof fn lemma_root_slugs_take_step(items: Seq<ItemView>, i: int)
    requires
        0 <= i < items.len(),
    ensures
        root_slugs(items.take(i + 1)) == root_slugs(items.take(i)) + root_item_slugs(items[i]),
    decreases i,
{
    let t = items.take(i + 1);
    if i == 0 {
        assert(t.drop_first() =~= Seq::<ItemView>::empty());
        assert(items.take(0) =~= Seq::<ItemView>::empty());
        assert(root_slugs(t) =~= root_slugs(items.take(0)) + root_item_slugs(items[0]));
    } else {
        let d = items.drop_first();
        lemma_root_slugs_take_step(d, i - 1);
        assert(t.drop_first() =~= d.take(i));
        assert(items.take(i).drop_first() =~= d.take(i - 1));
        assert(d[i - 1] == items[i]);
        assert(root_slugs(items.take(i + 1)) =~= root_slugs(items.take(i)) + root_item_slugs(
            items[i],
        ));
    }
}

// ---------------------------------------------------------------------------
// Order preservation
// ---------------------------------------------------------------------------
/// The projects one item contributes to a pre-order enumeration of the tree.
pub open spec fn item_preorder_projects(item: ItemView) -> Seq<InfoView>
    decreases item,
{
    match item {
        ItemView::Project(info) => seq![info],
        ItemView::Namespace(ns) => preorder_projects(ns.items),
    }
}

/// The projects of an item list in depth-first pre-order.
pub open spec fn preorder_projects(items: Seq<ItemView>) -> Seq<InfoView>
    decreases items,
{
    if items.len() == 0 {
        Seq::empty()
    } else {
        item_preorder_projects(items[0]) + preorder_projects(items.drop_first())
    }
}

/// `s` is a fully-qualified slug answering to a project whose own slug is
/// `own`: it is `own` itself, or it ends in a dot followed by `own`.
pub open spec fn slug_answers_to(s: Seq<char>, own: Seq<char>) -> bool {
    ||| s == own
    ||| (s.len() > own.len() && s.subrange(s.len() - own.len() - 1, s.len() as int) == seq!['.']
        + own)
}

proof fn lemma_sub_item_order(item: ItemView, my_slug: Seq<char>)
    ensures
        sub_item_slugs(item, my_slug).len() == item_preorder_projects(item).len(),
        forall|i: int| 0 <= i < sub_item_slugs(item, my_slug).len() ==> slug_answers_to(
            #[trigger] sub_item_slugs(item, my_slug)[i],
            item_preorder_projects(item)[i].slug,
        ),
    decreases item,
{
    match item {
        ItemView::Project(info) => {
            let s = dotted(my_slug, info.slug);
            assert(s.subrange(s.len() - info.slug.len() - 1, s.len() as int) =~= seq!['.']
                + info.slug);
        },
        ItemView::Namespace(ns) => {
            lemma_sub_items_order(ns.items, combined_slug(my_slug, ns.info.slug));
        },
    }
}

proof fn lemma_sub_items_order(items: Seq<ItemView>, my_slug: Seq<char>)
    ensures
        sub_items_slugs(items, my_slug).len() == preorder_projects(items).len(),
        forall|i: int| 0 <= i < sub_items_slugs(items, my_slug).len() ==> slug_answers_to(
            #[trigger] sub_items_slugs(items, my_slug)[i],
            preorder_projects(items)[i].slug,
        ),
    decreases items,
{
    if items.len() > 0 {
        lemma_sub_item_order(items[0], my_slug);
        lemma_sub_items_order(items.drop_first(), my_slug);
        let f = sub_item_slugs(items[0], my_slug);
        let r = sub_items_slugs(items.drop_first(), my_slug);
        let fp = item_preorder_projects(items[0]);
        let rp = preorder_projects(items.drop_first());
        assert forall|i: int| 0 <= i < (f + r).len() implies slug_answers_to(
            #[trigger] (f + r)[i],
            (fp + rp)[i].slug,
        ) by {
            if i < f.len() {
                assert((f + r)[i] == f[i]);
                assert((fp + rp)[i] == fp[i]);
            } else {
                assert((f + r)[i] == r[i - f.len()]);
                assert((fp + rp)[i] == rp[i - fp.len()]);
            }
        }
    }
}

proof fn lemma_root_item_order(item: ItemView)
    ensures
        root_item_slugs(item).len() == item_preorder_projects(item).len(),
        forall|i: int| 0 <= i < root_item_slugs(item).len() ==> slug_answers_to(
            #[trigger] root_item_slugs(item)[i],
            item_preorder_projects(item)[i].slug,
        ),
{
    match item {
        ItemView::Project(_) => {},
        ItemView::Namespace(ns) => {
            lemma_sub_items_order(ns.items, combined_slug(Seq::empty(), ns.info.slug));
        },
    }
}

proof fn lemma_root_items_order(items: Seq<ItemView>)
    ensures
        root_slugs(items).len() == preorder_projects(items).len(),
        forall|i: int| 0 <= i < root_slugs(items).len() ==> slug_answers_to(
            #[trigger] root_slugs(items)[i],
            preorder_projects(items)[i].slug,
        ),
    decreases items,
{
    if items.len() > 0 {
        lemma_root_item_order(items[0]);
        lemma_root_items_order(items.drop_first());
        let f = root_item_slugs(items[0]);
        let r = root_slugs(items.drop_first());
        let fp = item_preorder_projects(items[0]);
        let rp = preorder_projects(items.drop_first());
        assert forall|i: int| 0 <= i < (f + r).len() implies slug_answers_to(
            #[trigger] (f + r)[i],
            (fp + rp)[i].slug,
        ) by {
            if i < f.len() {
                assert((f + r)[i] == f[i]);
                assert((fp + rp)[i] == fp[i]);
            } else {
                assert((f + r)[i] == r[i - f.len()]);
                assert((fp + rp)[i] == rp[i - fp.len()]);
            }
        }
    }
}

/// Order preservation: the slug builder yields exactly one slug per project,
/// in the order of a depth-first pre-order traversal of the catalog: the
/// i-th slug answers to the i-th pre-order project.
pub proof fn lemma_order_preservation(root: &RootNamespace)
    ensures
        root_slugs(root@.items).len() == preorder_projects(root@.items).len(),
        forall|i: int| 0 <= i < root_slugs(root@.items).len() ==> slug_answers_to(
            #[trigger] root_slugs(root@.items)[i],
            preorder_projects(root@.items)[i].slug,
        ),
{
    lemma_root_items_order(root@.items);
}

// ---------------------------------------------------------------------------
// Slug uniqueness
// ---------------------------------------------------------------------------
/// A well-formed stored slug: nonempty and free of dots. Dots separate the
/// segments of fully-qualified slugs, so a stored slug carrying one, or an
/// empty one, can make two different projects answer to the same slug.
pub open spec fn slug_wf(slug: Seq<char>) -> bool {
    slug.len() > 0 && !slug.contains('.')
}

/// The slug an item answers to among its siblings.
pub open spec fn own_slug(item: ItemView) -> Seq<char> {
    match item {
        ItemView::Project(info) => info.slug,
        ItemView::Namespace(ns) => ns.info.slug,
    }
}

/// Every slug stored in this item or below it is well-formed.
pub open spec fn item_slugs_wf(item: ItemView) -> bool
    decreases item,
{
    match item {
        ItemView::Project(info) => slug_wf(info.slug),
        ItemView::Namespace(ns) => slug_wf(ns.info.slug) && items_slugs_wf(ns.items),
    }
}

pub open spec fn items_slugs_wf(items: Seq<ItemView>) -> bool
    decreases items,
{
    forall|k: int| 0 <= k < items.len() ==> item_slugs_wf(#[trigger] items[k])
}

/// No two siblings in this item's subtree share an own slug.
pub open spec fn item_slugs_distinct(item: ItemView) -> bool
    decreases item,
{
    match item {
        ItemView::Project(_) => true,
        ItemView::Namespace(ns) => items_slugs_distinct(ns.items),
    }
}

pub open spec fn items_slugs_distinct(items: Seq<ItemView>) -> bool
    decreases items,
{
    &&& forall|i: int, j: int|
        0 <= i < j < items.len() ==> own_slug(#[trigger] items[i]) != own_slug(
            #[trigger] items[j],
        )
    &&& forall|k: int| 0 <= k < items.len() ==> item_slugs_distinct(#[trigger] items[k])
}

/// `s` lies in the slug subtree rooted at base `b`: it is `b` itself, or it
/// continues `b` past a dot.
pub open spec fn in_slug_subtree(s: Seq<char>, b: Seq<char>) -> bool {
    ||| s == b
    ||| (s.len() > b.len() && s.subrange(0, b.len() as int + 1) == b + seq!['.'])
}

proof fn lemma_own_slug_wf(item: ItemView)
    requires
        item_slugs_wf(item),
    ensures
        slug_wf(own_slug(item)),
{
    match item {
        ItemView::Project(_) => {},
        ItemView::Namespace(_) => {},
    }
}

proof fn lemma_prefix_index(s: Seq<char>, b: Seq<char>, t: int)
    requires
        s.len() > b.len(),
        s.subrange(0, b.len() as int + 1) == b + seq!['.'],
        0 <= t <= b.len(),
    ensures
        t < b.len() ==> s[t] == b[t],
        t == b.len() ==> s[t] == '.',
{
    assert(s.subrange(0, b.len() as int + 1)[t] == s[t]);
}

/// Whatever lies in the subtree of `dotted(b, c)` continues `b` past a dot.
proof fn lemma_subtree_step(s: Seq<char>, b: Seq<char>, c: Seq<char>)
    requires
        in_slug_subtree(s, dotted(b, c)),
    ensures
        s.len() > b.len() && s.subrange(0, b.len() as int + 1) == b + seq!['.'],
{
    let d = dotted(b, c);
    if s == d {
        assert(s.subrange(0, b.len() as int + 1) =~= b + seq!['.']);
    } else {
        assert forall|t: int| 0 <= t < b.len() as int + 1 implies s.subrange(0, b.len() as int + 1)[t] == (b
            + seq!['.'])[t] by {
            assert(s.subrange(0, d.len() as int + 1)[t] == s[t]);
            assert(s.subrange(0, b.len() as int + 1)[t] == s[t]);
            assert((d + seq!['.'])[t] == d[t]);
        }
        assert(s.subrange(0, b.len() as int + 1) =~= b + seq!['.']);
    }
}

/// Distinct well-formed sibling slugs open disjoint slug subtrees below a
/// common prefix.
proof fn lemma_subtrees_disjoint(s: Seq<char>, p: Seq<char>, x: Seq<char>, y: Seq<char>)
    requires
        slug_wf(x),
        slug_wf(y),
        x != y,
        in_slug_subtree(s, p + x),
    ensures
        !in_slug_subtree(s, p + y),
{
    if !in_slug_subtree(s, p + y) {
        return ;
    }
    let bx = p + x;
    let by = p + y;
    if s == bx && s == by {
        assert(bx.len() == by.len());
        assert(x.len() == y.len());
        assert forall|t: int| 0 <= t < x.len() implies x[t] == y[t] by {
            assert(bx[p.len() as int + t] == x[t]);
            assert(by[p.len() as int + t] == y[t]);
        }
        assert(x =~= y);
    } else if s == bx && s != by {
        lemma_prefix_index(s, by, by.len() as int);
        assert(s[p.len() as int + y.len() as int] == '.');
        assert(bx[p.len() as int + y.len() as int] == x[y.len() as int]);
        assert(x[y.len() as int] == '.');
        assert(x.contains('.'));
    } else if s != bx && s == by {
        lemma_prefix_index(s, bx, bx.len() as int);
        assert(s[p.len() as int + x.len() as int] == '.');
        assert(by[p.len() as int + x.len() as int] == y[x.len() as int]);
        assert(y[x.len() as int] == '.');
        assert(y.contains('.'));
    } else {
        if x.len() == y.len() {
            assert forall|t: int| 0 <= t < x.len() implies x[t] == y[t] by {
                lemma_prefix_index(s, bx, p.len() as int + t);
                lemma_prefix_index(s, by, p.len() as int + t);
                assert(bx[p.len() as int + t] == x[t]);
                assert(by[p.len() as int + t] == y[t]);
            }
            assert(x =~= y);
        } else if x.len() < y.len() {
            lemma_prefix_index(s, bx, bx.len() as int);
            lemma_prefix_index(s, by, p.len() as int + x.len() as int);
            assert(by[p.len() as int + x.len() as int] == y[x.len() as int]);
            assert(y[x.len() as int] == '.');
            assert(y.contains('.'));
        } else {
            lemma_prefix_index(s, by, by.len() as int);
            lemma_prefix_index(s, bx, p.len() as int + y.len() as int);
            assert(bx[p.len() as int + y.len() as int] == x[y.len() as int]);
            assert(x[y.len() as int] == '.');
            assert(x.contains('.'));
        }
    }
}

proof fn lemma_sub_item_unique(item: ItemView, my_slug: Seq<char>)
    requires
        my_slug.len() > 0,
        item_slugs_wf(item),
        item_slugs_distinct(item),
    ensures
        sub_item_slugs(item, my_slug).no_duplicates(),
        forall|t: int| 0 <= t < sub_item_slugs(item, my_slug).len() ==> in_slug_subtree(
            #[trigger] sub_item_slugs(item, my_slug)[t],
            dotted(my_slug, own_slug(item)),
        ),
    decreases item,
{
    match item {
        ItemView::Project(_) => {},
        ItemView::Namespace(ns) => {
            let inner = dotted(my_slug, ns.info.slug);
            assert(combined_slug(my_slug, ns.info.slug) == inner);
            lemma_sub_items_unique(ns.items, inner);
            let slugs = sub_items_slugs(ns.items, inner);
            assert forall|t: int| 0 <= t < slugs.len() implies in_slug_subtree(
                #[trigger] slugs[t],
                inner,
            ) by {
                let k = choose|k: int|
                    0 <= k < ns.items.len() && in_slug_subtree(
                        slugs[t],
                        dotted(inner, own_slug(ns.items[k])),
                    );
                lemma_subtree_step(slugs[t], inner, own_slug(ns.items[k]));
            }
        },
    }
}

proof fn lemma_sub_items_unique(items: Seq<ItemView>, my_slug: Seq<char>)
    requires
        my_slug.len() > 0,
        items_slugs_wf(items),
        items_slugs_distinct(items),
    ensures
        sub_items_slugs(items, my_slug).no_duplicates(),
        forall|t: int| 0 <= t < sub_items_slugs(items, my_slug).len() ==> exists|k: int|
            0 <= k < items.len() && in_slug_subtree(
                #[trigger] sub_items_slugs(items, my_slug)[t],
                dotted(my_slug, own_slug(items[k])),
            ),
    decreases items,
{
    if items.len() > 0 {
        let d = items.drop_first();
        assert(items_slugs_wf(d)) by {
            assert forall|k: int| 0 <= k < d.len() implies item_slugs_wf(#[trigger] d[k]) by {
                assert(d[k] == items[k + 1]);
            }
        }
        assert(items_slugs_distinct(d)) by {
            assert forall|i: int, j: int| 0 <= i < j < d.len() implies own_slug(#[trigger] d[i])
                != own_slug(#[trigger] d[j]) by {
                assert(d[i] == items[i + 1]);
                assert(d[j] == items[j + 1]);
            }
            assert forall|k: int| 0 <= k < d.len() implies item_slugs_distinct(
                #[trigger] d[k],
            ) by {
                assert(d[k] == items[k + 1]);
            }
        }
        lemma_sub_item_unique(items[0], my_slug);
        lemma_sub_items_unique(d, my_slug);
        let f = sub_item_slugs(items[0], my_slug);
        let r = sub_items_slugs(d, my_slug);
        let whole = sub_items_slugs(items, my_slug);
        assert(whole == f + r);
        assert forall|t: int| 0 <= t < whole.len() implies exists|k: int|
            0 <= k < items.len() && in_slug_subtree(
                #[trigger] whole[t],
                dotted(my_slug, own_slug(items[k])),
            ) by {
            if t < f.len() {
                assert(whole[t] == f[t]);
                assert(in_slug_subtree(whole[t], dotted(my_slug, own_slug(items[0]))));
            } else {
                assert(whole[t] == r[t - f.len()]);
                let k = choose|k: int|
                    0 <= k < d.len() && in_slug_subtree(
                        r[t - f.len()],
                        dotted(my_slug, own_slug(d[k])),
                    );
                assert(d[k] == items[k + 1]);
                assert(in_slug_subtree(whole[t], dotted(my_slug, own_slug(items[k + 1]))));
            }
        }
        assert forall|i: int, j: int| 0 <= i < j < whole.len() implies whole[i] != whole[j] by {
            if j < f.len() {
                assert(whole[i] == f[i] && whole[j] == f[j]);
            } else if i >= f.len() {
                assert(whole[i] == r[i - f.len()] && whole[j] == r[j - f.len()]);
            } else {
                assert(whole[i] == f[i]);
                assert(whole[j] == r[j - f.len()]);
                assert(in_slug_subtree(f[i], dotted(my_slug, own_slug(items[0]))));
                let k = choose|k: int|
                    0 <= k < d.len() && in_slug_subtree(
                        r[j - f.len()],
                        dotted(my_slug, own_slug(d[k])),
                    );
                assert(d[k] == items[k + 1]);
                assert(own_slug(items[0]) != own_slug(items[k + 1]));
                lemma_own_slug_wf(items[0]);
                lemma_own_slug_wf(items[k + 1]);
                let q = my_slug + seq!['.'];
                assert(dotted(my_slug, own_slug(items[0])) =~= q + own_slug(items[0]));
                assert(dotted(my_slug, own_slug(items[k + 1])) =~= q + own_slug(items[k + 1]));
                lemma_subtrees_disjoint(
                    whole[i],
                    q,
                    own_slug(items[0]),
                    own_slug(items[k + 1]),
                );
            }
        }
    }
}

proof fn lemma_root_item_unique(item: ItemView)
    requires
        item_slugs_wf(item),
        item_slugs_distinct(item),
    ensures
        root_item_slugs(item).no_duplicates(),
        forall|t: int| 0 <= t < root_item_slugs(item).len() ==> in_slug_subtree(
            #[trigger] root_item_slugs(item)[t],
            own_slug(item),
        ),
{
    match item {
        ItemView::Project(_) => {},
        ItemView::Namespace(ns) => {
            assert(combined_slug(Seq::empty(), ns.info.slug) == ns.info.slug);
            lemma_sub_items_unique(ns.items, ns.info.slug);
            let slugs = sub_items_slugs(ns.items, ns.info.slug);
            assert forall|t: int| 0 <= t < slugs.len() implies in_slug_subtree(
                #[trigger] slugs[t],
                ns.info.slug,
            ) by {
                let k = choose|k: int|
                    0 <= k < ns.items.len() && in_slug_subtree(
                        slugs[t],
                        dotted(ns.info.slug, own_slug(ns.items[k])),
                    );
                lemma_subtree_step(slugs[t], ns.info.slug, own_slug(ns.items[k]));
            }
        },
    }
}

proof fn lemma_root_items_unique(items: Seq<ItemView>)
    requires
        items_slugs_wf(items),
        items_slugs_distinct(items),
    ensures
        root_slugs(items).no_duplicates(),
        forall|t: int| 0 <= t < root_slugs(items).len() ==> exists|k: int|
            0 <= k < items.len() && in_slug_subtree(
                #[trigger] root_slugs(items)[t],
                own_slug(items[k]),
            ),
    decreases items,
{
    if items.len() > 0 {
        let d = items.drop_first();
        assert(items_slugs_wf(d)) by {
            assert forall|k: int| 0 <= k < d.len() implies item_slugs_wf(#[trigger] d[k]) by {
                assert(d[k] == items[k + 1]);
            }
        }
        assert(items_slugs_distinct(d)) by {
            assert forall|i: int, j: int| 0 <= i < j < d.len() implies own_slug(#[trigger] d[i])
                != own_slug(#[trigger] d[j]) by {
                assert(d[i] == items[i + 1]);
                assert(d[j] == items[j + 1]);
            }
            assert forall|k: int| 0 <= k < d.len() implies item_slugs_distinct(
                #[trigger] d[k],
            ) by {
                assert(d[k] == items[k + 1]);
            }
        }
        lemma_root_item_unique(items[0]);
        lemma_root_items_unique(d);
        let f = root_item_slugs(items[0]);
        let r = root_slugs(d);
        let whole = root_slugs(items);
        assert(whole == f + r);
        assert forall|t: int| 0 <= t < whole.len() implies exists|k: int|
            0 <= k < items.len() && in_slug_subtree(#[trigger] whole[t], own_slug(items[k])) by {
            if t < f.len() {
                assert(whole[t] == f[t]);
                assert(in_slug_subtree(whole[t], own_slug(items[0])));
            } else {
                assert(whole[t] == r[t - f.len()]);
                let k = choose|k: int|
                    0 <= k < d.len() && in_slug_subtree(r[t - f.len()], own_slug(d[k]));
                assert(d[k] == items[k + 1]);
                assert(in_slug_subtree(whole[t], own_slug(items[k + 1])));
            }
        }
        assert forall|i: int, j: int| 0 <= i < j < whole.len() implies whole[i] != whole[j] by {
            if j < f.len() {
                assert(whole[i] == f[i] && whole[j] == f[j]);
            } else if i >= f.len() {
                assert(whole[i] == r[i - f.len()] && whole[j] == r[j - f.len()]);
            } else {
                assert(whole[i] == f[i]);
                assert(whole[j] == r[j - f.len()]);
                assert(in_slug_subtree(f[i], own_slug(items[0])));
                let k = choose|k: int|
                    0 <= k < d.len() && in_slug_subtree(r[j - f.len()], own_slug(d[k]));
                assert(d[k] == items[k + 1]);
                assert(own_slug(items[0]) != own_slug(items[k + 1]));
                lemma_own_slug_wf(items[0]);
                lemma_own_slug_wf(items[k + 1]);
                assert(own_slug(items[0]) =~= Seq::<char>::empty() + own_slug(items[0]));
                assert(own_slug(items[k + 1]) =~= Seq::<char>::empty() + own_slug(
                    items[k + 1],
                ));
                lemma_subtrees_disjoint(
                    whole[i],
                    Seq::empty(),
                    own_slug(items[0]),
                    own_slug(items[k + 1]),
                );
            }
        }
    }
}

/// Slug uniqueness: in a catalog where every stored slug is nonempty and
/// dot-free and no two siblings anywhere share a slug, the slug builder
/// yields no duplicate fully-qualified slugs.
pub proof fn lemma_slug_uniqueness(root: &RootNamespace)
    requires
        items_slugs_wf(root@.items),
        items_slugs_distinct(root@.items),
    ensures
        root_slugs(root@.items).no_duplicates(),
{
    lemma_root_items_unique(root@.items);
}

// ---------------------------------------------------------------------------
// Project paths and the path resolver
// ---------------------------------------------------------------------------
/// The stored paths of every project, in the same depth-first pre-order the
/// slug builder uses.
pub open spec fn preorder_project_paths(items: Seq<ItemView>) -> Seq<Seq<char>> {
    preorder_projects(items).map_values(|info: InfoView| info.path)
}

/// Taking one more item contributes exactly that item's projects at the end.
proof fn lemma_preorder_take_step(items: Seq<ItemView>, i: int)
    requires
        0 <= i < items.len(),
    ensures
        preorder_projects(items.take(i + 1)) == preorder_projects(items.take(i))
            + item_preorder_projects(items[i]),
    decreases i,
{
    let t = items.take(i + 1);
    if i == 0 {
        assert(t.drop_first() =~= Seq::<ItemView>::empty());
        assert(items.take(0) =~= Seq::<ItemView>::empty());
        assert(preorder_projects(t) =~= preorder_projects(items.take(0))
            + item_preorder_projects(items[0]));
    } else {
        let d = items.drop_first();
        lemma_preorder_take_step(d, i - 1);
        assert(t.drop_first() =~= d.take(i));
        assert(items.take(i).drop_first() =~= d.take(i - 1));
        assert(d[i - 1] == items[i]);
        assert(preorder_projects(items.take(i + 1)) =~= preorder_projects(items.take(i))
            + item_preorder_projects(items[i]));
    }
}

impl SubNamespace {
    /// The paths of every project below this namespace, in pre-order.
    pub fn project_paths(&self) -> (r: Vec<String>)
        ensures
            r.deep_view() == preorder_project_paths(self@.items),
        decreases *self,
    {
        let views = Ghost(items_view(self.items@));
        let mut paths: Vec<String> = Vec::new();
        let mut i: usize = 0;
        while i < self.items.len()
            invariant
                i <= self.items.len(),
                views@ == items_view(self.items@),
                paths.deep_view() == preorder_project_paths(views@.take(i as int)),
            decreases self.items.len() - i,
        {
            match &self.items[i] {
                NamespaceItem::Project(p) => {
                    paths.push(p.info.path.clone());
                    proof {
                        assert(paths.deep_view() =~= preorder_project_paths(
                            views@.take(i as int),
                        ).push(p.info.path@));
                    }
                },
                NamespaceItem::Namespace(ns) => {
                    proof {
                        assert(decreases_to!(*self => self.items));
                        assert(decreases_to!(self.items => self.items@[i as int]));
                        assert(self.items@[i as int] == NamespaceItem::Namespace(*ns));
                        assert(decreases_to!(
                            self.items@[i as int] => self.items@[i as int]->Namespace_0));
                    }
                    let mut sub = ns.project_paths();
                    proof {
                        assert(paths.deep_view() + sub.deep_view() =~= preorder_project_paths(
                            views@.take(i as int),
                        ) + preorder_project_paths(ns@.items));
                    }
                    paths.append(&mut sub);
                },
            }
            proof {
                lemma_preorder_take_step(views@, i as int);
                assert(preorder_project_paths(views@.take(i as int + 1)) =~=
                    preorder_project_paths(views@.take(i as int)) + item_preorder_projects(
                    views@[i as int],
                ).map_values(|info: InfoView| info.path));
                assert(paths.deep_view() =~= preorder_project_paths(views@.take(i as int + 1)));
            }
            i = i + 1;
        }
        proof {
            assert(views@.take(i as int) =~= views@);
        }
        paths
    }
}

impl RootNamespace {
    /// The paths of every project in the catalog, in the same pre-order as
    /// `build_project_slugs`.
    pub fn project_paths(&self) -> (r: Vec<String>)
        ensures
            r.deep_view() == preorder_project_paths(self@.items),
    {
        let views = Ghost(items_view(self.items@));
        let mut paths: Vec<String> = Vec::new();
        let mut i: usize = 0;
        while i < self.items.len()
            invariant
                i <= self.items.len(),
                views@ == items_view(self.items@),
                paths.deep_view() == preorder_project_paths(views@.take(i as int)),
            decreases self.items.len() - i,
        {
            match &self.items[i] {
                NamespaceItem::Project(p) => {
                    paths.push(p.info.path.clone());
                    proof {
                        assert(paths.deep_view() =~= preorder_project_paths(
                            views@.take(i as int),
                        ).push(p.info.path@));
                    }
                },
                NamespaceItem::Namespace(ns) => {
                    let mut sub = ns.project_paths();
                    proof {
                        assert(paths.deep_view() + sub.deep_view() =~= preorder_project_paths(
                            views@.take(i as int),
                        ) + preorder_project_paths(ns@.items));
                    }
                    paths.append(&mut sub);
                },
            }
            proof {
                lemma_preorder_take_step(views@, i as int);
                assert(preorder_project_paths(views@.take(i as int + 1)) =~=
                    preorder_project_paths(views@.take(i as int)) + item_preorder_projects(
                    views@[i as int],
                ).map_values(|info: InfoView| info.path));
                assert(paths.deep_view() =~= preorder_project_paths(views@.take(i as int + 1)));
            }
            i = i + 1;
        }
        proof {
            assert(views@.take(i as int) =~= views@);
        }
        paths
    }

    /// The paths of every project whose fully-qualified slug equals `slug`,
    /// in catalog order: the path resolver.
    pub fn resolve(&self, slug: &str) -> (r: Vec<String>)
        ensures
            r.deep_view() == matching_paths(
                root_slugs(self@.items),
                preorder_project_paths(self@.items),
                slug@,
            ),
    {
        let slugs = self.build_project_slugs();
        let paths = self.project_paths();
        proof {
            lemma_root_items_order(self@.items);
            assert(slugs@.len() == slugs.deep_view().len());
            assert(paths@.len() == paths.deep_view().len());
        }
        let mut found: Vec<String> = Vec::new();
        let mut t: usize = 0;
        proof {
            assert(slugs.deep_view().take(0) =~= Seq::<Seq<char>>::empty());
        }
        while t < slugs.len()
            invariant
                t <= slugs@.len(),
                slugs@.len() == paths@.len(),
                slugs.deep_view() == root_slugs(self@.items),
                paths.deep_view() == preorder_project_paths(self@.items),
                found.deep_view() == matching_paths(
                    slugs.deep_view().take(t as int),
                    paths.deep_view().take(t as int),
                    slug@,
                ),
            decreases slugs@.len() - t,
        {
            let ghost prev = found.deep_view();
            if crate::detect::str_eq(slugs[t].as_str(), slug) {
                found.push(paths[t].clone());
                proof {
                    assert(found.deep_view() =~= prev.push(paths.deep_view()[t as int]));
                }
            }
            proof {
                lemma_matching_paths_take_step(
                    slugs.deep_view(),
                    paths.deep_view(),
                    slug@,
                    t as int,
                );
                assert(found.deep_view() =~= matching_paths(
                    slugs.deep_view().take(t as int + 1),
                    paths.deep_view().take(t as int + 1),
                    slug@,
                ));
            }
            t = t + 1;
        }
        proof {
            assert(slugs.deep_view().take(t as int) =~= slugs.deep_view());
            assert(paths.deep_view().take(t as int) =~= paths.deep_view());
        }
        found
    }
}

/// The paths standing at the positions where the slug list carries `target`,
/// in order.
pub open spec fn matching_paths(
    slugs: Seq<Seq<char>>,
    paths: Seq<Seq<char>>,
    target: Seq<char>,
) -> Seq<Seq<char>>
    decreases slugs,
{
    if slugs.len() == 0 || paths.len() == 0 {
        Seq::empty()
    } else {
        (if slugs[0] == target {
            seq![paths[0]]
        } else {
            Seq::empty()
        }) + matching_paths(slugs.drop_first(), paths.drop_first(), target)
    }
}

proof fn lemma_matching_paths_take_step(
    slugs: Seq<Seq<char>>,
    paths: Seq<Seq<char>>,
    target: Seq<char>,
    t: int,
)
    requires
        slugs.len() == paths.len(),
        0 <= t < slugs.len(),
    ensures
        matching_paths(slugs.take(t + 1), paths.take(t + 1), target) == matching_paths(
            slugs.take(t),
            paths.take(t),
            target,
        ) + (if slugs[t] == target {
            seq![paths[t]]
        } else {
            Seq::<Seq<char>>::empty()
        }),
    decreases t,
{
    let s1 = slugs.take(t + 1);
    let p1 = paths.take(t + 1);
    if t == 0 {
        assert(s1.drop_first() =~= Seq::<Seq<char>>::empty());
        assert(p1.drop_first() =~= Seq::<Seq<char>>::empty());
        assert(slugs.take(0) =~= Seq::<Seq<char>>::empty());
        assert(paths.take(0) =~= Seq::<Seq<char>>::empty());
        assert(matching_paths(s1.drop_first(), p1.drop_first(), target)
            == Seq::<Seq<char>>::empty());
        assert(s1[0] == slugs[0]);
        assert(p1[0] == paths[0]);
        assert(matching_paths(s1, p1, target) =~= matching_paths(
            slugs.take(0),
            paths.take(0),
            target,
        ) + (if slugs[0] == target {
            seq![paths[0]]
        } else {
            Seq::<Seq<char>>::empty()
        }));
    } else {
        let ds = slugs.drop_first();
        let dp = paths.drop_first();
        lemma_matching_paths_take_step(ds, dp, target, t - 1);
        assert(s1.drop_first() =~= ds.take(t));
        assert(p1.drop_first() =~= dp.take(t));
        assert(slugs.take(t).drop_first() =~= ds.take(t - 1));
        assert(paths.take(t).drop_first() =~= dp.take(t - 1));
        assert(ds[t - 1] == slugs[t]);
        assert(dp[t - 1] == paths[t]);
        assert(matching_paths(slugs.take(t + 1), paths.take(t + 1), target) =~= matching_paths(
            slugs.take(t),
            paths.take(t),
            target,
        ) + (if slugs[t] == target {
            seq![paths[t]]
        } else {
            Seq::<Seq<char>>::empty()
        }));
    }
}

} // verus!

