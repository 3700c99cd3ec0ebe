//! Turning enumeration rules and directory listings into control points.
//!
//! A rule names a subsystem root and the leaf paths of its control points.
//! A fixed rule puts its leaves under the root itself; the others scan the
//! root one level deep and put the leaves under each entry they select.
use vstd::prelude::*;

use crate::config::{read_value, Config, ConfigView, Permission};
use crate::extract::Extractor;
use crate::text::{contains_char, opt_string, starts_with, starts_with_at, to_chars};

verus! {

/// How the instances of a rule are found under its root.
pub enum Discovery {
    /// No scan: the leaves stand under the root.
    Fixed,
    /// Entries whose name (for a symbolic link, that of its target) is the
    /// given prefix followed by one to three ASCII digits.
    Instances(String),
    /// Every entry, but one whose name equals `skip_name` or begins with `skip_prefix`.
    Entries { skip_name: Option<String>, skip_prefix: Option<String> },
}

pub enum DiscoveryView {
    Fixed,
    Instances(Seq<char>),
    Entries { skip_name: Option<Seq<char>>, skip_prefix: Option<Seq<char>> },
}

impl View for Discovery {
    type V = DiscoveryView;

    open spec fn view(&self) -> DiscoveryView {
        match self {
            Discovery::Fixed => DiscoveryView::Fixed,
            Discovery::Instances(p) => DiscoveryView::Instances(p@),
            Discovery::Entries { skip_name, skip_prefix } => DiscoveryView::Entries {
                skip_name: opt_string(*skip_name),
                skip_prefix: opt_string(*skip_prefix),
            },
        }
    }
}

/// One control point of a rule, relative to the root or to an instance.
pub struct Leaf {
    pub suffix: String,
    pub writable: bool,
    pub handler: Extractor,
}

pub struct LeafView {
    pub suffix: Seq<char>,
    pub writable: bool,
    pub handler: Extractor,
}

impl View for Leaf {
    type V = LeafView;

    open spec fn view(&self) -> LeafView {
        LeafView { suffix: self.suffix@, writable: self.writable, handler: self.handler }
    }
}

/// An enumeration rule: a root, how instances are found under it, and the
/// leaf paths of the control points of the root or of each instance.
pub struct Rule {
    pub root: String,
    pub discovery: Discovery,
    pub leaves: Vec<Leaf>,
}

pub struct RuleView {
    pub root: Seq<char>,
    pub discovery: DiscoveryView,
    pub leaves: Seq<LeafView>,
}

impl View for Rule {
    type V = RuleView;

    open spec fn view(&self) -> RuleView {
        RuleView {
            root: self.root@,
            discovery: self.discovery@,
            leaves: self.leaves@.map_values(|l: Leaf| l@),
        }
    }
}

/// What a directory entry is.
#[derive(Clone, Copy, PartialEq, Eq, Structural, Debug)]
pub enum EntryKind {
    Directory,
    Symlink,
    Other,
}

/// One entry of a one-level scan of a root, the root itself included.
pub struct Entry {
    /// The root joined with the entry's name.
    pub path: String,
    /// The entry's own file name.
    pub name: String,
    pub kind: EntryKind,
    /// For a symbolic link, the file name of the directory it resolves to,
    /// when it could be resolved.
    pub resolved_name: Option<String>,
}

pub struct EntryView {
    pub path: Seq<char>,
    pub name: Seq<char>,
    pub kind: EntryKind,
    pub resolved_name: Option<Seq<char>>,
}

impl View for Entry {
    type V = EntryView;

    open spec fn view(&self) -> EntryView {
        EntryView {
            path: self.path@,
            name: self.name@,
            kind: self.kind,
            resolved_name: opt_string(self.resolved_name),
        }
    }
}

/// The entries found under `root`, in sorted file-name order.
pub struct Scan {
    pub root: String,
    pub entries: Vec<Entry>,
}

pub struct ScanView {
    pub root: Seq<char>,
    pub entries: Seq<EntryView>,
}

impl View for Scan {
    type V = ScanView;

    open spec fn view(&self) -> ScanView {
        ScanView { root: self.root@, entries: self.entries@.map_values(|e: Entry| e@) }
    }
}

/// A control point to be read: its path, whether it is writable, and its extractor.
pub struct Target {
    pub node: String,
    pub writable: bool,
    pub handler: Extractor,
}

pub struct TargetView {
    pub node: Seq<char>,
    pub writable: bool,
    pub handler: Extractor,
}

impl View for Target {
    type V = TargetView;

    open spec fn view(&self) -> TargetView {
        TargetView { node: self.node@, writable: self.writable, handler: self.handler }
    }
}

/// `base/suffix`
pub open spec fn join_path(base: Seq<char>, suffix: Seq<char>) -> Seq<char> {
    base + seq!['/'] + suffix
}

/// The control points of `leaves` under `base`, in order.
pub open spec fn leaf_targets(base: Seq<char>, leaves: Seq<LeafView>) -> Seq<TargetView> {
    leaves.map_values(
        |l: LeafView| TargetView { node: join_path(base, l.suffix), writable: l.writable, handler: l.handler },
    )
}

/// Text that stands for itself in a regular expression: lower-case ASCII
/// letters and `_`.
pub open spec fn plain_text(p: Seq<char>) -> bool {
    forall|i: int| 0 <= i < p.len() ==> ('a' <= #[trigger] p[i] <= 'z' || p[i] == '_')
}

/// The most characters that the fixed parts of a name pattern may hold
/// together, which keeps the compiled pattern far below the regex size limit.
pub const PLAIN_LIMIT: usize = 200;

/// A prefix and a suffix that a name pattern can be built of: plain text,
/// short enough together.
pub open spec fn plain_parts(p: Seq<char>, q: Seq<char>) -> bool {
    plain_text(p) && plain_text(q) && p.len() + q.len() <= PLAIN_LIMIT
}

pub open spec fn plain_prefix(p: Seq<char>) -> bool {
    p.len() > 0 && plain_parts(p, Seq::empty())
}

/// `name` is `prefix`, one to three ASCII digits, then `suffix`.
pub open spec fn numbered_name(prefix: Seq<char>, suffix: Seq<char>, name: Seq<char>) -> bool {
    let n = name.len() - prefix.len() - suffix.len();
    &&& 1 <= n <= 3
    &&& name.take(prefix.len() as int) == prefix
    &&& name.skip(name.len() - suffix.len()) == suffix
    &&& forall|i: int| prefix.len() <= i < prefix.len() + n ==> '0' <= #[trigger] name[i] <= '9'
}

/// `name` is `prefix` followed by one to three ASCII digits.
pub open spec fn instance_name(prefix: Seq<char>, name: Seq<char>) -> bool {
    numbered_name(prefix, Seq::empty(), name)
}

/// The regular expression `^<prefix>[0-9]{1,3}<suffix>$`.
pub open spec fn numbered_pattern(prefix: Seq<char>, suffix: Seq<char>) -> Seq<char> {
    seq!['^'] + prefix + seq!['[', '0', '-', '9', ']', '{', '1', ',', '3', '}'] + suffix + seq!['$']
}

/// The name an entry is matched by: a directory's own, a link's target's.
pub open spec fn match_name(e: EntryView) -> Option<Seq<char>> {
    match e.kind {
        EntryKind::Directory => Some(e.name),
        EntryKind::Symlink => e.resolved_name,
        EntryKind::Other => None,
    }
}

/// Whether a scan of `root` under `disc` selects entry `e` as an instance.
pub open spec fn entry_selected(root: Seq<char>, disc: DiscoveryView, e: EntryView) -> bool {
    &&& e.path != root
    &&& e.kind != EntryKind::Other
    &&& match disc {
        DiscoveryView::Fixed => false,
        DiscoveryView::Instances(p) => plain_prefix(p) && (match_name(e) matches Some(n)
            && instance_name(p, n)),
        DiscoveryView::Entries { skip_name, skip_prefix } => {
            &&& !(skip_name matches Some(s) && e.name == s)
            &&& !(skip_prefix matches Some(p) && starts_with(e.name, p))
        },
    }
}

/// The control points of the instances of `rule` among `entries`, in order.
pub open spec fn instance_targets(rule: RuleView, entries: Seq<EntryView>) -> Seq<TargetView>
    decreases entries.len(),
{
    if entries.len() == 0 {
        Seq::empty()
    } else {
        let prev = instance_targets(rule, entries.drop_last());
        let e = entries.last();
        if entry_selected(rule.root, rule.discovery, e) {
            prev + leaf_targets(e.path, rule.leaves)
        } else {
            prev
        }
    }
}

/// The entries of the first scan of `root`; none when `root` was not scanned.
pub open spec fn entries_for(scans: Seq<ScanView>, root: Seq<char>) -> Seq<EntryView>
    decreases scans.len(),
{
    if scans.len() == 0 {
        Seq::empty()
    } else if scans[0].root == root {
        scans[0].entries
    } else {
        entries_for(scans.drop_first(), root)
    }
}

/// The control points of one rule.
pub open spec fn rule_targets(rule: RuleView, scans: Seq<ScanView>) -> Seq<TargetView> {
    match rule.discovery {
        DiscoveryView::Fixed => leaf_targets(rule.root, rule.leaves),
        _ => instance_targets(rule, entries_for(scans, rule.root)),
    }
}

/// The control points of all rules, rule after rule.
pub open spec fn all_targets(rules: Seq<RuleView>, scans: Seq<ScanView>) -> Seq<TargetView>
    decreases rules.len(),
{
    if rules.len() == 0 {
        Seq::empty()
    } else {
        all_targets(rules.drop_last(), scans) + rule_targets(rules.last(), scans)
    }
}

/// The point that target `t` becomes once its file read as `content`.
pub open spec fn target_point(t: TargetView, content: Option<Seq<char>>) -> ConfigView {
    ConfigView {
        node: t.node,
        value: read_value(t.handler, content),
        permission: Permission { readable: true, writable: t.writable },
        handler: t.handler,
    }
}

pub open spec fn rule_views(v: Seq<Rule>) -> Seq<RuleView> {
    v.map_values(|r: Rule| r@)
}

pub open spec fn scan_views(v: Seq<Scan>) -> Seq<ScanView> {
    v.map_values(|s: Scan| s@)
}

pub open spec fn target_views(v: Seq<Target>) -> Seq<TargetView> {
    v.map_values(|t: Target| t@)
}

/// Instances found in two runs of entries, one after the other.
proof fn lemma_instance_targets_concat(rule: RuleView, a: Seq<EntryView>, b: Seq<EntryView>)
    ensures
        instance_targets(rule, a + b) == instance_targets(rule, a) + instance_targets(rule, b),
    decreases b.len(),
{
    if b.len() == 0 {
        assert(a + b =~= a);
        assert(instance_targets(rule, a) + instance_targets(rule, b) =~= instance_targets(rule, a));
    } else {
        lemma_instance_targets_concat(rule, a, b.drop_last());
        assert((a + b).drop_last() =~= a + b.drop_last());
        assert((a + b).last() == b.last());
        let e = b.last();
        if entry_selected(rule.root, rule.discovery, e) {
            assert(instance_targets(rule, a + b) =~= instance_targets(rule, a) + instance_targets(
                rule,
                b,
            ));
        }
    }
}

/// What the control points of entry `e` under `rule` are: the rule's whole
/// leaf set under the entry's path when the rule selects it, else none.
pub open spec fn entry_targets(rule: RuleView, e: EntryView) -> Seq<TargetView> {
    if entry_selected(rule.root, rule.discovery, e) {
        leaf_targets(e.path, rule.leaves)
    } else {
        Seq::empty()
    }
}

/// Each entry of a scan contributes its own control points in its place:
/// those before it, then its own, then those after it.
pub proof fn lemma_entry_contribution(rule: RuleView, entries: Seq<EntryView>, i: int)
    requires
        0 <= i < entries.len(),
    ensures
        instance_targets(rule, entries) == instance_targets(rule, entries.take(i)) + entry_targets(
            rule,
            entries[i],
        ) + instance_targets(rule, entries.skip(i + 1)),
{
    let one = seq![entries[i]];
    assert(entries =~= entries.take(i) + one + entries.skip(i + 1));
    lemma_instance_targets_concat(rule, entries.take(i) + one, entries.skip(i + 1));
    lemma_instance_targets_concat(rule, entries.take(i), one);
    assert(one.drop_last() =~= Seq::<EntryView>::empty());
    assert(instance_targets(rule, one.drop_last()) == Seq::<TargetView>::empty());
    assert(one.last() == entries[i]);
    if entry_selected(rule.root, rule.discovery, entries[i]) {
        assert(Seq::<TargetView>::empty() + leaf_targets(entries[i].path, rule.leaves)
            =~= leaf_targets(entries[i].path, rule.leaves));
    }
    assert(instance_targets(rule, one) =~= entry_targets(rule, entries[i]));
}

/// A path from the file-system root.
pub open spec fn absolute(p: Seq<char>) -> bool {
    p.len() > 0 && p[0] == '/'
}

/// Every control point of `ts` has an absolute path.
pub open spec fn all_absolute(ts: Seq<TargetView>) -> bool {
    forall|i: int| 0 <= i < ts.len() ==> absolute(#[trigger] ts[i].node)
}

/// Every entry of `entries` is `root` itself or `root` joined with its name.
pub open spec fn entries_under(entries: Seq<EntryView>, root: Seq<char>) -> bool {
    forall|j: int|
        0 <= j < entries.len() ==> (#[trigger] entries[j]).path == root || entries[j].path
            == join_path(root, entries[j].name)
}

/// A scan as a one-level walk of its root gives it.
pub open spec fn scan_valid(s: ScanView) -> bool {
    entries_under(s.entries, s.root)
}

proof fn lemma_absolute_concat(a: Seq<TargetView>, b: Seq<TargetView>)
    requires
        all_absolute(a),
        all_absolute(b),
    ensures
        all_absolute(a + b),
{
    assert forall|i: int| 0 <= i < (a + b).len() implies absolute(#[trigger] (a + b)[i].node) by {
        if i < a.len() {
            assert((a + b)[i] == a[i]);
        } else {
            assert((a + b)[i] == b[i - a.len()]);
        }
    }
}

proof fn lemma_leaf_targets_absolute(base: Seq<char>, leaves: Seq<LeafView>)
    requires
        absolute(base),
    ensures
        all_absolute(leaf_targets(base, leaves)),
{
    let ts = leaf_targets(base, leaves);
    assert forall|i: int| 0 <= i < ts.len() implies absolute(#[trigger] ts[i].node) by {
        assert(ts[i].node == join_path(base, leaves[i].suffix));
        assert(join_path(base, leaves[i].suffix)[0] == base[0]);
    }
}

proof fn lemma_instance_targets_absolute(rule: RuleView, entries: Seq<EntryView>)
    requires
        absolute(rule.root),
        entries_under(entries, rule.root),
    ensures
        all_absolute(instance_targets(rule, entries)),
    decreases entries.len(),
{
    if entries.len() > 0 {
        let front = entries.drop_last();
        assert forall|j: int| 0 <= j < front.len() implies (#[trigger] front[j]).path == rule.root
            || front[j].path == join_path(rule.root, front[j].name) by {
            assert(front[j] == entries[j]);
        }
        lemma_instance_targets_absolute(rule, front);
        let e = entries.last();
        assert(e == entries[entries.len() - 1]);
        if entry_selected(rule.root, rule.discovery, e) {
            assert(join_path(rule.root, e.name)[0] == rule.root[0]);
            lemma_leaf_targets_absolute(e.path, rule.leaves);
            lemma_absolute_concat(instance_targets(rule, front), leaf_targets(e.path, rule.leaves));
        }
    }
}

proof fn lemma_entries_for_under(scans: Seq<ScanView>, root: Seq<char>)
    requires
        forall|k: int| 0 <= k < scans.len() ==> scan_valid(#[trigger] scans[k]),
    ensures
        entries_under(entries_for(scans, root), root),
    decreases scans.len(),
{
    if scans.len() > 0 {
        assert(scan_valid(scans[0]));
        if scans[0].root != root {
            let rest = scans.drop_first();
            assert forall|k: int| 0 <= k < rest.len() implies scan_valid(#[trigger] rest[k]) by {
                assert(rest[k] == scans[k + 1]);
            }
            lemma_entries_for_under(rest, root);
        }
    }
}

/// Every control point that rules with absolute roots describe, given scans
/// as one-level walks of their roots give them, has an absolute path.
pub proof fn lemma_targets_absolute(rules: Seq<RuleView>, scans: Seq<ScanView>)
    requires
        forall|r: int| 0 <= r < rules.len() ==> absolute(#[trigger] rules[r].root),
        forall|k: int| 0 <= k < scans.len() ==> scan_valid(#[trigger] scans[k]),
    ensures
        all_absolute(all_targets(rules, scans)),
    decreases rules.len(),
{
    if rules.len() > 0 {
        let front = rules.drop_last();
        assert forall|r: int| 0 <= r < front.len() implies absolute(#[trigger] front[r].root) by {
            assert(front[r] == rules[r]);
        }
        lemma_targets_absolute(front, scans);
        let rule = rules.last();
        assert(absolute(rules[rules.len() - 1].root));
        match rule.discovery {
            DiscoveryView::Fixed => lemma_leaf_targets_absolute(rule.root, rule.leaves),
            _ => {
                lemma_entries_for_under(scans, rule.root);
                lemma_instance_targets_absolute(rule, entries_for(scans, rule.root));
            },
        }
        lemma_absolute_concat(all_targets(front, scans), rule_targets(rule, scans));
    }
}

/// No two control points of `ts` share a path.
pub open spec fn distinct_nodes(ts: Seq<TargetView>) -> bool {
    forall|i: int, j: int| 0 <= i < j < ts.len() ==> (#[trigger] ts[i]).node != (#[trigger] ts[j]).node
}

/// No two leaves share a suffix.
pub open spec fn distinct_suffixes(leaves: Seq<LeafView>) -> bool {
    forall|i: int, j: int|
        0 <= i < j < leaves.len() ==> (#[trigger] leaves[i]).suffix != (#[trigger] leaves[j]).suffix
}

/// Entries of a one-level walk of `root`: each is the root itself or the
/// root joined with its name, names hold no `/`, and no two are alike.
pub open spec fn walk_entries(entries: Seq<EntryView>, root: Seq<char>) -> bool {
    &&& forall|j: int|
        0 <= j < entries.len() ==> (#[trigger] entries[j]).path == root || (entries[j].path
            == join_path(root, entries[j].name) && !contains_char(entries[j].name, '/'))
    &&& forall|i: int, j: int|
        0 <= i < j < entries.len() ==> (#[trigger] entries[i]).name != (#[trigger] entries[j]).name
}

proof fn lemma_join_injective(base: Seq<char>, s1: Seq<char>, s2: Seq<char>)
    requires
        join_path(base, s1) == join_path(base, s2),
    ensures
        s1 == s2,
{
    let k = (base.len() + 1) as int;
    assert(join_path(base, s1).skip(k) =~= s1);
    assert(join_path(base, s2).skip(k) =~= s2);
}

proof fn lemma_segments_differ(root: Seq<char>, n1: Seq<char>, n2: Seq<char>, s1: Seq<char>, s2: Seq<char>)
    requires
        n1 != n2,
        !contains_char(n1, '/'),
        !contains_char(n2, '/'),
    ensures
        join_path(join_path(root, n1), s1) != join_path(join_path(root, n2), s2),
{
    let a = join_path(join_path(root, n1), s1);
    let b = join_path(join_path(root, n2), s2);
    let k = (root.len() + 1) as int;
    if a == b {
        assert(a.skip(k) =~= n1 + seq!['/'] + s1);
        assert(b.skip(k) =~= n2 + seq!['/'] + s2);
        let x = n1 + seq!['/'] + s1;
        let y = n2 + seq!['/'] + s2;
        if n1.len() < n2.len() {
            assert(x[n1.len() as int] == '/');
            assert(y[n1.len() as int] == n2[n1.len() as int]);
        } else if n2.len() < n1.len() {
            assert(y[n2.len() as int] == '/');
            assert(x[n2.len() as int] == n1[n2.len() as int]);
        } else {
            assert(x.take(n1.len() as int) =~= n1);
            assert(y.take(n2.len() as int) =~= n2);
        }
    }
}

/// Each control point of the instances under `rule` lies under a selected entry.
pub proof fn lemma_instance_target_origin(rule: RuleView, entries: Seq<EntryView>, m: int)
    requires
        0 <= m < instance_targets(rule, entries).len(),
    ensures
        exists|j: int, l: int|
            0 <= j < entries.len() && 0 <= l < rule.leaves.len() && entry_selected(
                rule.root,
                rule.discovery,
                #[trigger] entries[j],
            ) && instance_targets(rule, entries)[m].node == join_path(
                entries[j].path,
                #[trigger] rule.leaves[l].suffix,
            ),
    decreases entries.len(),
{
    let front = entries.drop_last();
    let prev = instance_targets(rule, front);
    let cur = instance_targets(rule, entries);
    let e = entries.last();
    assert(entries[entries.len() - 1] == e);
    if m < prev.len() {
        if entry_selected(rule.root, rule.discovery, e) {
            assert(cur == prev + leaf_targets(e.path, rule.leaves));
        }
        assert(cur[m] == prev[m]);
        lemma_instance_target_origin(rule, front, m);
        let (j, l) = choose|j: int, l: int|
            0 <= j < front.len() && 0 <= l < rule.leaves.len() && entry_selected(
                rule.root,
                rule.discovery,
                #[trigger] front[j],
            ) && prev[m].node == join_path(front[j].path, #[trigger] rule.leaves[l].suffix);
        assert(entries[j] == front[j]);
    } else {
        let l = m - prev.len();
        assert(entry_selected(rule.root, rule.discovery, e));
        assert(cur == prev + leaf_targets(e.path, rule.leaves));
        assert(cur[m] == leaf_targets(e.path, rule.leaves)[l]);
        assert(cur[m].node == join_path(entries[entries.len() - 1].path, rule.leaves[l].suffix));
    }
}

/// The leaves of distinct suffixes under one base have distinct paths.
pub proof fn lemma_leaf_targets_distinct(base: Seq<char>, leaves: Seq<LeafView>)
    requires
        distinct_suffixes(leaves),
    ensures
        distinct_nodes(leaf_targets(base, leaves)),
{
    let ts = leaf_targets(base, leaves);
    assert forall|i: int, j: int| 0 <= i < j < ts.len() implies (#[trigger] ts[i]).node
        != (#[trigger] ts[j]).node by {
        assert(leaves[i].suffix != leaves[j].suffix);
        if ts[i].node == ts[j].node {
            lemma_join_injective(base, leaves[i].suffix, leaves[j].suffix);
        }
    }
}

/// Within one rule, the control points of distinct walked entries, with
/// leaves of distinct suffixes, have distinct paths.
pub proof fn lemma_instance_targets_distinct(rule: RuleView, entries: Seq<EntryView>)
    requires
        walk_entries(entries, rule.root),
        distinct_suffixes(rule.leaves),
    ensures
        distinct_nodes(instance_targets(rule, entries)),
    decreases entries.len(),
{
    if entries.len() > 0 {
        let front = entries.drop_last();
        let e = entries.last();
        assert(e == entries[entries.len() - 1]);
        assert forall|j: int| 0 <= j < front.len() implies (#[trigger] front[j]).path == rule.root
            || (front[j].path == join_path(rule.root, front[j].name) && !contains_char(
            front[j].name,
            '/',
        )) by {
            assert(front[j] == entries[j]);
        }
        assert forall|i: int, j: int| 0 <= i < j < front.len() implies (#[trigger] front[i]).name
            != (#[trigger] front[j]).name by {
            assert(front[i] == entries[i] && front[j] == entries[j]);
        }
        lemma_instance_targets_distinct(rule, front);
        if entry_selected(rule.root, rule.discovery, e) {
            let prev = instance_targets(rule, front);
            let own = leaf_targets(e.path, rule.leaves);
            let cur = instance_targets(rule, entries);
            assert(cur == prev + own);
            assert forall|i: int, j: int| 0 <= i < j < cur.len() implies (#[trigger] cur[i]).node
                != (#[trigger] cur[j]).node by {
                if j < prev.len() {
                    assert(cur[i] == prev[i] && cur[j] == prev[j]);
                } else if i >= prev.len() {
                    let li = i - prev.len();
                    let lj = j - prev.len();
                    assert(cur[i] == own[li] && cur[j] == own[lj]);
                    assert(rule.leaves[li].suffix != rule.leaves[lj].suffix);
                    if cur[i].node == cur[j].node {
                        lemma_join_injective(e.path, rule.leaves[li].suffix, rule.leaves[lj].suffix);
                    }
                } else {
                    let lj = j - prev.len();
                    assert(cur[i] == prev[i] && cur[j] == own[lj]);
                    lemma_instance_target_origin(rule, front, i);
                    let (k, l) = choose|k: int, l: int|
                        0 <= k < front.len() && 0 <= l < rule.leaves.len() && entry_selected(
                            rule.root,
                            rule.discovery,
                            #[trigger] front[k],
                        ) && prev[i].node == join_path(front[k].path, #[trigger] rule.leaves[l].suffix);
                    let f = front[k];
                    assert(f == entries[k]);
                    assert(f.name != e.name);
                    lemma_segments_differ(rule.root, f.name, e.name, rule.leaves[l].suffix, rule.leaves[lj].suffix);
                }
            }
        }
    }
}

/// Scans shaped as one-level walks of their roots.
pub open spec fn walk_scans(scans: Seq<ScanView>) -> bool {
    forall|k: int| 0 <= k < scans.len() ==> walk_entries((#[trigger] scans[k]).entries, scans[k].root)
}

pub proof fn lemma_entries_for_walk(scans: Seq<ScanView>, root: Seq<char>)
    requires
        walk_scans(scans),
    ensures
        walk_entries(entries_for(scans, root), root),
    decreases scans.len(),
{
    if scans.len() > 0 {
        assert(walk_entries(scans[0].entries, scans[0].root));
        if scans[0].root != root {
            let rest = scans.drop_first();
            assert forall|k: int| 0 <= k < rest.len() implies walk_entries(
                (#[trigger] rest[k]).entries,
                rest[k].root,
            ) by {
                assert(rest[k] == scans[k + 1]);
            }
            lemma_entries_for_walk(rest, root);
        } else {
            assert(walk_entries(Seq::<EntryView>::empty(), root));
        }
    } else {
        assert(walk_entries(Seq::<EntryView>::empty(), root));
    }
}

/// Two texts that differ at a position within both heads differ, whatever follows.
pub proof fn lemma_heads_differ(a: Seq<char>, b: Seq<char>, x: Seq<char>, y: Seq<char>, d: int)
    requires
        0 <= d < a.len(),
        d < b.len(),
        a[d] != b[d],
    ensures
        a + x != b + y,
{
    assert((a + x)[d] == a[d]);
    assert((b + y)[d] == b[d]);
}

/// Where one control point of a rule comes from: a leaf under the root, or
/// a leaf under an entry named without `/`.
pub open spec fn target_shape(rule: RuleView, node: Seq<char>) -> bool {
    match rule.discovery {
        DiscoveryView::Fixed => exists|l: int|
            0 <= l < rule.leaves.len() && node == join_path(rule.root, #[trigger] rule.leaves[l].suffix),
        _ => exists|l: int, n: Seq<char>|
            #![trigger join_path(join_path(rule.root, n), rule.leaves[l].suffix)]
            0 <= l < rule.leaves.len() && !contains_char(n, '/') && node == join_path(
                join_path(rule.root, n),
                rule.leaves[l].suffix,
            ),
    }
}

/// Every control point of a rule over walk-shaped scans has its shape.
pub proof fn lemma_rule_target_shape(rule: RuleView, scans: Seq<ScanView>, m: int)
    requires
        walk_scans(scans),
        0 <= m < rule_targets(rule, scans).len(),
    ensures
        target_shape(rule, rule_targets(rule, scans)[m].node),
{
    match rule.discovery {
        DiscoveryView::Fixed => {
            assert(rule_targets(rule, scans)[m].node == join_path(rule.root, rule.leaves[m].suffix));
        },
        _ => {
            let entries = entries_for(scans, rule.root);
            lemma_entries_for_walk(scans, rule.root);
            lemma_instance_target_origin(rule, entries, m);
            let (j, l) = choose|j: int, l: int|
                0 <= j < entries.len() && 0 <= l < rule.leaves.len() && entry_selected(
                    rule.root,
                    rule.discovery,
                    #[trigger] entries[j],
                ) && instance_targets(rule, entries)[m].node == join_path(
                    entries[j].path,
                    #[trigger] rule.leaves[l].suffix,
                );
            let n = entries[j].name;
            assert(entries[j].path == join_path(rule.root, n) && !contains_char(n, '/'));
        },
    }
}

/// Each control point of a run of rules belongs to one of them.
pub proof fn lemma_all_targets_origin(rules: Seq<RuleView>, scans: Seq<ScanView>, i: int)
    requires
        0 <= i < all_targets(rules, scans).len(),
    ensures
        exists|r: int, m: int|
            0 <= r < rules.len() && 0 <= m < rule_targets(rules[r], scans).len()
                && all_targets(rules, scans)[i] == #[trigger] rule_targets(#[trigger] rules[r], scans)[m],
    decreases rules.len(),
{
    let front = rules.drop_last();
    let prev = all_targets(front, scans);
    let last = rule_targets(rules.last(), scans);
    assert(rules[rules.len() - 1] == rules.last());
    if i < prev.len() {
        lemma_all_targets_origin(front, scans, i);
        let (r, m) = choose|r: int, m: int|
            0 <= r < front.len() && 0 <= m < rule_targets(front[r], scans).len() && prev[i]
                == #[trigger] rule_targets(#[trigger] front[r], scans)[m];
        assert(front[r] == rules[r]);
    } else {
        assert(all_targets(rules, scans)[i] == last[i - prev.len()]);
    }
}

/// A run of rules whose control points are distinct within each rule and
/// across any two of them has distinct control points.
pub proof fn lemma_all_targets_distinct(rules: Seq<RuleView>, scans: Seq<ScanView>)
    requires
        forall|r: int| 0 <= r < rules.len() ==> distinct_nodes(rule_targets(#[trigger] rules[r], scans)),
        forall|r1: int, r2: int, m1: int, m2: int|
            0 <= r1 < r2 < rules.len() && 0 <= m1 < rule_targets(rules[r1], scans).len() && 0 <= m2
                < rule_targets(rules[r2], scans).len() ==> (#[trigger] rule_targets(
                rules[r1],
                scans,
            )[m1]).node != (#[trigger] rule_targets(rules[r2], scans)[m2]).node,
    ensures
        distinct_nodes(all_targets(rules, scans)),
    decreases rules.len(),
{
    if rules.len() > 0 {
        let front = rules.drop_last();
        let r_last = rules.len() - 1;
        assert(rules[r_last] == rules.last());
        assert forall|r: int| 0 <= r < front.len() implies distinct_nodes(
            rule_targets(#[trigger] front[r], scans),
        ) by {
            assert(front[r] == rules[r]);
        }
        assert forall|r1: int, r2: int, m1: int, m2: int|
            0 <= r1 < r2 < front.len() && 0 <= m1 < rule_targets(front[r1], scans).len() && 0 <= m2
                < rule_targets(front[r2], scans).len() implies (#[trigger] rule_targets(
            front[r1],
            scans,
        )[m1]).node != (#[trigger] rule_targets(front[r2], scans)[m2]).node by {
            assert(front[r1] == rules[r1] && front[r2] == rules[r2]);
        }
        lemma_all_targets_distinct(front, scans);
        let prev = all_targets(front, scans);
        let last = rule_targets(rules.last(), scans);
        let cur = all_targets(rules, scans);
        assert(distinct_nodes(last));
        assert forall|i: int, j: int| 0 <= i < j < cur.len() implies (#[trigger] cur[i]).node
            != (#[trigger] cur[j]).node by {
            if j < prev.len() {
                assert(cur[i] == prev[i] && cur[j] == prev[j]);
            } else if i >= prev.len() {
                assert(cur[i] == last[i - prev.len()] && cur[j] == last[j - prev.len()]);
            } else {
                assert(cur[i] == prev[i] && cur[j] == last[j - prev.len()]);
                lemma_all_targets_origin(front, scans, i);
                let (r, m) = choose|r: int, m: int|
                    0 <= r < front.len() && 0 <= m < rule_targets(front[r], scans).len() && prev[i]
                        == #[trigger] rule_targets(#[trigger] front[r], scans)[m];
                assert(front[r] == rules[r]);
                assert(rule_targets(rules[r], scans)[m].node != rule_targets(rules[r_last], scans)[j
                    - prev.len()].node);
            }
        }
    }
}

/// A control point of a rule lies under the rule's root.
pub proof fn lemma_target_head(rule: RuleView, node: Seq<char>)
    requires
        target_shape(rule, node),
    ensures
        node.len() > rule.root.len(),
        node.take((rule.root.len() + 1) as int) == rule.root + seq!['/'],
{
    match rule.discovery {
        DiscoveryView::Fixed => {
            let l = choose|l: int|
                0 <= l < rule.leaves.len() && node == join_path(rule.root, #[trigger] rule.leaves[l].suffix);
            assert(node.take((rule.root.len() + 1) as int) =~= rule.root + seq!['/']);
        },
        _ => {
            let (l, n) = choose|l: int, n: Seq<char>|
                #![trigger join_path(join_path(rule.root, n), rule.leaves[l].suffix)]
                0 <= l < rule.leaves.len() && !contains_char(n, '/') && node == join_path(
                    join_path(rule.root, n),
                    rule.leaves[l].suffix,
                );
            assert(node.take((rule.root.len() + 1) as int) =~= rule.root + seq!['/']);
        },
    }
}

/// Two texts with heads that differ at a position within both differ.
pub proof fn lemma_differ_at(x: Seq<char>, y: Seq<char>, hx: Seq<char>, hy: Seq<char>, d: int)
    requires
        hx.len() <= x.len(),
        hy.len() <= y.len(),
        x.take(hx.len() as int) == hx,
        y.take(hy.len() as int) == hy,
        0 <= d < hx.len(),
        d < hy.len(),
        hx[d] != hy[d],
    ensures
        x != y,
{
    assert(x[d] == x.take(hx.len() as int)[d]);
    assert(y[d] == y.take(hy.len() as int)[d]);
}

/// Texts that split at their first `/` into equal texts have equal parts.
pub proof fn lemma_first_segment(x: Seq<char>, y: Seq<char>, u: Seq<char>, v: Seq<char>)
    requires
        !contains_char(x, '/'),
        !contains_char(u, '/'),
        x + seq!['/'] + y == u + seq!['/'] + v,
    ensures
        x == u,
        y == v,
{
    let a = x + seq!['/'] + y;
    let b = u + seq!['/'] + v;
    if x.len() < u.len() {
        assert(a[x.len() as int] == '/');
        assert(b[x.len() as int] == u[x.len() as int]);
    } else if u.len() < x.len() {
        assert(b[u.len() as int] == '/');
        assert(a[u.len() as int] == x[u.len() as int]);
    } else {
        assert(a.take(x.len() as int) =~= x);
        assert(b.take(u.len() as int) =~= u);
        assert(a.skip((x.len() + 1) as int) =~= y);
        assert(b.skip((u.len() + 1) as int) =~= v);
    }
}

/// A text whose head differs from `p` at a position within both does not begin with `p`.
pub proof fn lemma_head_excludes(x: Seq<char>, hx: Seq<char>, p: Seq<char>, d: int)
    requires
        hx.len() <= x.len(),
        x.take(hx.len() as int) == hx,
        0 <= d < hx.len(),
        d < p.len(),
        hx[d] != p[d],
    ensures
        !starts_with(x, p),
{
    assert(x[d] == x.take(hx.len() as int)[d]);
    if starts_with(x, p) {
        assert(x[d] == x.take(p.len() as int)[d]);
    }
}

/// A text that begins with `u/` and splits at its first `/` as `x/y` has `x == u`.
pub proof fn lemma_first_segment_prefix(x: Seq<char>, y: Seq<char>, u: Seq<char>)
    requires
        !contains_char(x, '/'),
        !contains_char(u, '/'),
        starts_with(x + seq!['/'] + y, u + seq!['/']),
    ensures
        x == u,
{
    let a = x + seq!['/'] + y;
    let b = u + seq!['/'];
    assert(a.take(b.len() as int) == b);
    if x.len() < u.len() {
        assert(a[x.len() as int] == '/');
        assert(a[x.len() as int] == a.take(b.len() as int)[x.len() as int]);
        assert(b[x.len() as int] == u[x.len() as int]);
    } else if u.len() < x.len() {
        assert(b[u.len() as int] == '/');
        assert(a[u.len() as int] == a.take(b.len() as int)[u.len() as int]);
        assert(a[u.len() as int] == x[u.len() as int]);
    } else {
        assert forall|k: int| 0 <= k < x.len() implies x[k] == u[k] by {
            assert(a[k] == a.take(b.len() as int)[k]);
            assert(a[k] == x[k]);
            assert(b[k] == u[k]);
        }
        assert(x =~= u);
    }
}

/// Relies on regex::Regex::new and Regex::is_match: a pattern
/// `^<prefix>[0-9]{1,3}<suffix>$` of at most 256 characters, whose prefix
/// and suffix hold only lower-case ASCII letters and `_`, compiles (it stays
/// far below the default size limit), and matches exactly the texts made of
/// the prefix, one to three ASCII digits and the suffix.
#[verifier::external_body]
fn pattern_matches(pattern: &str, text: &str) -> (r: bool)
    requires
        pattern@.len() <= 256,
        exists|p: Seq<char>, q: Seq<char>|
            plain_parts(p, q) && pattern@ == numbered_pattern(p, q),
    ensures
        forall|p: Seq<char>, q: Seq<char>|
            pattern@ == numbered_pattern(p, q) ==> r == numbered_name(p, q, text@),
{
    match regex::Regex::new(pattern) {
        Ok(re) => re.is_match(text),
        Err(_) => false,
    }
}

fn is_plain_text(p: &str) -> (r: bool)
    ensures
        r == plain_text(p@),
{
    let chars = to_chars(p);
    let mut i: usize = 0;
    while i < chars.len()
        invariant
            chars@ == p@,
            i <= chars.len(),
            forall|j: int| 0 <= j < i ==> ('a' <= #[trigger] chars@[j] <= 'z' || chars@[j] == '_'),
        decreases chars.len() - i,
    {
        let c = chars[i];
        if !(('a' <= c && c <= 'z') || c == '_') {
            return false;
        }
        i = i + 1;
    }
    true
}

fn numbered_pattern_of(prefix: &str, suffix: &str) -> (r: String)
    ensures
        r@ == numbered_pattern(prefix@, suffix@),
{
    let mut s = String::from_str("^");
    s.append(prefix);
    s.append("[0-9]{1,3}");
    s.append(suffix);
    s.append("$");
    proof {
        reveal_strlit("^");
        reveal_strlit("[0-9]{1,3}");
        reveal_strlit("$");
        assert(s@ =~= numbered_pattern(prefix@, suffix@));
    }
    s
}

/// Whether `name` is `prefix`, one to three ASCII digits, then `suffix`,
/// where prefix and suffix are made of lower-case ASCII letters and `_` and
/// hold at most `PLAIN_LIMIT` characters together; with any other prefix or
/// suffix nothing matches.
pub fn is_numbered_name(prefix: &str, suffix: &str, name: &str) -> (r: bool)
    ensures
        r == (plain_parts(prefix@, suffix@) && numbered_name(prefix@, suffix@, name@)),
{
    let p_len = prefix.unicode_len();
    let s_len = suffix.unicode_len();
    if p_len > PLAIN_LIMIT || s_len > PLAIN_LIMIT - p_len {
        return false;
    }
    if !is_plain_text(prefix) || !is_plain_text(suffix) {
        return false;
    }
    let pattern = numbered_pattern_of(prefix, suffix);
    pattern_matches(pattern.as_str(), name)
}

/// Whether `name` is `prefix` followed by one to three ASCII digits, for a
/// non-empty prefix of at most `PLAIN_LIMIT` lower-case ASCII letters and
/// `_`; any other prefix matches nothing.
pub fn is_instance_name(prefix: &str, name: &str) -> (r: bool)
    ensures
        r == (plain_prefix(prefix@) && instance_name(prefix@, name@)),
{
    if prefix.unicode_len() == 0 {
        return false;
    }
    proof {
        reveal_strlit("");
        assert(""@ =~= Seq::<char>::empty());
    }
    is_numbered_name(prefix, "", name)
}

/// Whether `s` begins with `prefix`.
pub fn has_prefix(s: &str, prefix: &str) -> (r: bool)
    ensures
        r == starts_with(s@, prefix@),
{
    let chars = to_chars(s);
    assert(chars@.subrange(0, chars@.len() as int) =~= s@);
    starts_with_at(&chars, 0, chars.len(), prefix)
}

/// Whether the name `e` is matched by (its own, or its link target's) is
/// `prefix` followed by one to three digits.
fn matches_instance(prefix: &str, e: &Entry) -> (r: bool)
    ensures
        r == (plain_prefix(prefix@) && (match_name(e@) matches Some(n) && instance_name(prefix@, n))),
{
    let name = match e.kind {
        EntryKind::Directory => Some(&e.name),
        EntryKind::Symlink => e.resolved_name.as_ref(),
        EntryKind::Other => None,
    };
    match name {
        Some(n) => is_instance_name(prefix, n.as_str()),
        None => false,
    }
}

/// Whether a scan for `rule` selects entry `e` as an instance.
pub fn selects_entry(rule: &Rule, e: &Entry) -> (r: bool)
    ensures
        r == entry_selected(rule@.root, rule@.discovery, e@),
{
    if e.path == rule.root || e.kind == EntryKind::Other {
        return false;
    }
    match &rule.discovery {
        Discovery::Fixed => false,
        Discovery::Instances(prefix) => matches_instance(prefix.as_str(), e),
        Discovery::Entries { skip_name, skip_prefix } => {
            let named = match skip_name {
                Some(s) => e.name == *s,
                None => false,
            };
            let prefixed = match skip_prefix {
                Some(p) => has_prefix(e.name.as_str(), p.as_str()),
                None => false,
            };
            !named && !prefixed
        },
    }
}

/// Whether a scan of `root` selects `e` as an instance named `prefix`
/// followed by one to three digits (for a link, by its target's name).
pub fn is_instance_entry(root: &str, prefix: &str, e: &Entry) -> (r: bool)
    ensures
        r == entry_selected(root@, DiscoveryView::Instances(prefix@), e@),
{
    let root_path = String::from_str(root);
    if e.path == root_path || e.kind == EntryKind::Other {
        return false;
    }
    matches_instance(prefix, e)
}

/// `base/suffix`
pub fn join(base: &str, suffix: &str) -> (r: String)
    ensures
        r@ == join_path(base@, suffix@),
{
    let mut s = String::from_str(base);
    s.append("/");
    s.append(suffix);
    proof {
        reveal_strlit("/");
        assert(s@ =~= join_path(base@, suffix@));
    }
    s
}

fn push_leaf_targets(out: &mut Vec<Target>, base: &String, leaves: &Vec<Leaf>)
    ensures
        target_views(final(out)@) == target_views(old(out)@) + leaf_targets(
            base@,
            leaves@.map_values(|l: Leaf| l@),
        ),
{
    let ghost start = target_views(out@);
    let ghost lv = leaves@.map_values(|l: Leaf| l@);
    let mut k: usize = 0;
    assert(target_views(out@) =~= start + leaf_targets(base@, lv.take(0)));
    while k < leaves.len()
        invariant
            k <= leaves.len(),
            lv == leaves@.map_values(|l: Leaf| l@),
            target_views(out@) == start + leaf_targets(base@, lv.take(k as int)),
        decreases leaves.len() - k,
    {
        let leaf = &leaves[k];
        let t = Target { node: join(base.as_str(), leaf.suffix.as_str()), writable: leaf.writable, handler: leaf.handler };
        let ghost before = out@;
        out.push(t);
        assert(target_views(out@) =~= target_views(before).push(t@));
        assert(leaf_targets(base@, lv.take(k + 1)) =~= leaf_targets(base@, lv.take(k as int)).push(t@));
        k = k + 1;
    }
    assert(lv.take(leaves.len() as int) =~= lv);
}

/// The index of the first scan of `root`, if any.
fn find_scan(scans: &Vec<Scan>, root: &String) -> (r: Option<usize>)
    ensures
        match r {
            Some(i) => i < scans.len() && scans@[i as int]@.entries == entries_for(scan_views(scans@), root@),
            None => entries_for(scan_views(scans@), root@) == Seq::<EntryView>::empty(),
        },
{
    let ghost sv = scan_views(scans@);
    let mut i: usize = 0;
    assert(sv.skip(0) =~= sv);
    while i < scans.len()
        invariant
            i <= scans.len(),
            sv == scan_views(scans@),
            entries_for(sv, root@) == entries_for(sv.skip(i as int), root@),
        decreases scans.len() - i,
    {
        assert(sv.skip(i as int)[0] == scans@[i as int]@);
        if scans[i].root == *root {
            return Some(i);
        }
        assert(sv.skip(i as int).drop_first() =~= sv.skip(i + 1));
        i = i + 1;
    }
    None
}

/// The control points that `rules` describe, given the scans of their roots:
/// rule after rule, the leaves of a fixed rule under its root, and those of
/// any other under each entry of its root's scan that it selects, in scan
/// order. A root without a scan contributes no instance.
pub fn control_targets(rules: &Vec<Rule>, scans: &Vec<Scan>) -> (r: Vec<Target>)
    ensures
        target_views(r@) == all_targets(rule_views(rules@), scan_views(scans@)),
{
    let ghost rv = rule_views(rules@);
    let ghost sv = scan_views(scans@);
    let mut out: Vec<Target> = Vec::new();
    let mut i: usize = 0;
    assert(target_views(out@) =~= all_targets(rv.take(0), sv));
    while i < rules.len()
        invariant
            i <= rules.len(),
            rv == rule_views(rules@),
            sv == scan_views(scans@),
            target_views(out@) == all_targets(rv.take(i as int), sv),
        decreases rules.len() - i,
    {
        let rule = &rules[i];
        let ghost before = target_views(out@);
        match &rule.discovery {
            Discovery::Fixed => {
                push_leaf_targets(&mut out, &rule.root, &rule.leaves);
            },
            _ => {
                match find_scan(scans, &rule.root) {
                    Some(si) => {
                        let entries = &scans[si].entries;
                        let ghost ev = entries@.map_values(|e: Entry| e@);
                        assert(ev == entries_for(sv, rule@.root));
                        let mut k: usize = 0;
                        assert(before =~= before + instance_targets(rule@, ev.take(0)));
                        while k < entries.len()
                            invariant
                                k <= entries.len(),
                                ev == entries@.map_values(|e: Entry| e@),
                                target_views(out@) == before + instance_targets(rule@, ev.take(k as int)),
                            decreases entries.len() - k,
                        {
                            let e = &entries[k];
                            assert(ev.take(k + 1).drop_last() =~= ev.take(k as int));
                            assert(ev.take(k + 1).last() == e@);
                            if selects_entry(rule, e) {
                                push_leaf_targets(&mut out, &e.path, &rule.leaves);
                            }
                            k = k + 1;
                        }
                        assert(ev.take(entries.len() as int) =~= ev);
                    },
                    None => {
                        assert(before =~= before + instance_targets(rule@, Seq::<EntryView>::empty()));
                    },
                }
            },
        }
        proof {
            assert(rv.take(i + 1).drop_last() =~= rv.take(i as int));
            assert(rv.take(i + 1).last() == rule@);
        }
        i = i + 1;
    }
    assert(rv.take(rules.len() as int) =~= rv);
    out
}

/// The control points of `targets`, each with the value its file read as:
/// `contents[i]` is what the file of `targets[i]` held, `None` when it could
/// not be read. Writable targets get the write permission.
pub fn enumerate(targets: &Vec<Target>, contents: &Vec<Option<String>>) -> (r: Vec<Config>)
    requires
        targets.len() == contents.len(),
    ensures
        r.len() == targets.len(),
        forall|i: int| 0 <= i < r.len() ==> #[trigger] r@[i]@ == target_point(targets@[i]@, opt_string(contents@[i])),
{
    let mut out: Vec<Config> = Vec::new();
    let mut i: usize = 0;
    while i < targets.len()
        invariant
            i <= targets.len(),
            targets.len() == contents.len(),
            out.len() == i,
            forall|j: int| 0 <= j < i ==> #[trigger] out@[j]@ == target_point(targets@[j]@, opt_string(contents@[j])),
        decreases targets.len() - i,
    {
        let t = &targets[i];
        let content = match &contents[i] {
            Some(c) => Some(c.as_str()),
            None => None,
        };
        let mut c = Config::new_with_handler(t.node.as_str(), t.handler, content);
        if t.writable {
            c = c.add_permission(Permission::write());
        }
        out.push(c);
        i = i + 1;
    }
    out
}

} // verus!
