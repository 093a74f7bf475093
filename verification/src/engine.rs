//! The synchronization engine: the decisions that keep the manifest in
//! step with the package environment.
//!
//! Every external action (an install, an uninstall, a version lookup)
//! happens outside this library; its outcome is handed in as an event.
//! The engine decides, per item, whether the manifest changes, and the
//! manifest changes only for items whose action reported success.

use vstd::prelude::*;
use crate::manifest::{
    has_key, table_set, table_view, tbl_insert, unique_keys, value_of, Config, TableView,
    lemma_insert_props,
};
use crate::pkgspec::{split_package_spec, split_pkg_spec};

verus! {

/// The view of an optional string.
pub open spec fn opt_view(o: Option<String>) -> Option<Seq<char>> {
    match o {
        Some(s) => Some(s@),
        None => None,
    }
}

/// The views of a list of strings.
pub open spec fn str_views(ss: Seq<String>) -> Seq<Seq<char>> {
    ss.map_values(|s: String| s@)
}

/// What the environment reported back for one `add` item: whether the
/// install succeeded and, if a version lookup was made, its answer.
pub struct AddEvent {
    pub install_ok: bool,
    pub resolved: Option<String>,
}

/// The view of an `add` event.
pub open spec fn add_event_view(e: AddEvent) -> (bool, Option<Seq<char>>) {
    (e.install_ok, opt_view(e.resolved))
}

/// The views of a list of `add` events.
pub open spec fn add_events_view(es: Seq<AddEvent>) -> Seq<(bool, Option<Seq<char>>)> {
    es.map_values(|e: AddEvent| add_event_view(e))
}

/// What one `add` item came to.
#[derive(Debug, PartialEq, Eq)]
pub enum AddOutcome {
    /// The package was installed and its entry recorded; the manifest
    /// must be persisted now.
    Added { name: String, version: String },
    /// The installer failed; the manifest is untouched.
    InstallFailed { name: String },
    /// The installer succeeded but no version could be resolved; the
    /// manifest is untouched and the environment now drifts from it.
    ResolveFailed { name: String },
}

/// How the package table moves for one `add` item.
pub open spec fn add_step(
    packages: TableView,
    spec: Seq<char>,
    install_ok: bool,
    resolved: Option<Seq<char>>,
) -> TableView {
    let nv = split_pkg_spec(spec);
    if !install_ok {
        packages
    } else if nv.1.len() > 0 {
        tbl_insert(packages, nv.0, nv.1)
    } else {
        match resolved {
            Some(v) => tbl_insert(packages, nv.0, v),
            None => packages,
        }
    }
}

/// The outcome owed for one `add` item, given its spec and its event.
pub open spec fn add_outcome_matches(
    spec: Seq<char>,
    ev: (bool, Option<Seq<char>>),
    o: AddOutcome,
) -> bool {
    let nv = split_pkg_spec(spec);
    match o {
        AddOutcome::InstallFailed { name } => !ev.0 && name@ == nv.0,
        AddOutcome::ResolveFailed { name } => ev.0 && nv.1.len() == 0 && ev.1 is None && name@
            == nv.0,
        AddOutcome::Added { name, version } => ev.0 && name@ == nv.0 && (if nv.1.len() > 0 {
            version@ == nv.1
        } else {
            ev.1 == Some(version@)
        }),
    }
}

/// How the package table moves over a whole `add` batch.
pub open spec fn add_batch(
    packages: TableView,
    specs: Seq<Seq<char>>,
    events: Seq<(bool, Option<Seq<char>>)>,
) -> TableView
    decreases specs.len(),
{
    if specs.len() == 0 || events.len() == 0 {
        packages
    } else {
        add_batch(
            add_step(packages, specs[0], events[0].0, events[0].1),
            specs.drop_first(),
            events.drop_first(),
        )
    }
}

/// Process one `add` item: parse the spec, and record the entry only
/// when the install succeeded and a version is known.  Only the package
/// table can change, and exactly as `add_step` says.
pub fn add_item(conf: &mut Config, spec: &String, install_ok: bool, resolved: &Option<String>) -> (r:
    AddOutcome)
    requires
        old(conf).wf(),
    ensures
        final(conf).wf(),
        final(conf).project == old(conf).project,
        final(conf).scripts == old(conf).scripts,
        final(conf)@.packages == add_step(
            old(conf)@.packages,
            spec@,
            install_ok,
            opt_view(*resolved),
        ),
        add_outcome_matches(spec@, (install_ok, opt_view(*resolved)), r),
{
    let (name, ver) = split_package_spec(spec);
    if !install_ok {
        return AddOutcome::InstallFailed { name };
    }
    if !ver.as_str().is_empty() {
        let version = ver.clone();
        table_set(&mut conf.packages, name.clone(), ver);
        return AddOutcome::Added { name, version };
    }
    match resolved {
        Some(v) => {
            let version = v.clone();
            table_set(&mut conf.packages, name.clone(), v.clone());
            AddOutcome::Added { name, version }
        },
        None => AddOutcome::ResolveFailed { name },
    }
}

/// Whether the `add` workflow must consult the version resolver for
/// an item: only after a successful install of a reference that
/// pinned no version.
pub fn needs_resolution(install_ok: bool, version: &String) -> (r: bool)
    ensures
        r == (install_ok && version@.len() == 0),
{
    install_ok && version.as_str().is_empty()
}

/// The `add` command: a list of package references to install and
/// record.
pub struct AddPackage {
    /// List of packages to add
    pub pkg_names: Vec<String>,
}

impl AddPackage {
    /// Parse name and version of a package reference `name==version`;
    /// the version is empty when none is pinned.
    pub fn parse_version(&self, pkg: String) -> (r: (String, String))
        ensures
            r.0@ == split_pkg_spec(pkg@).0,
            r.1@ == split_pkg_spec(pkg@).1,
    {
        split_package_spec(&pkg)
    }

    /// Process a whole `add` batch against the events the environment
    /// reported.  Each item moves the package table as `add_step` says;
    /// an entry is recorded only for items whose install succeeded.
    pub fn add_package(&self, conf: &mut Config, events: &Vec<AddEvent>) -> (r: Vec<AddOutcome>)
        requires
            old(conf).wf(),
            events@.len() == self.pkg_names@.len(),
        ensures
            final(conf).wf(),
            final(conf).project == old(conf).project,
            final(conf).scripts == old(conf).scripts,
            final(conf)@.packages == add_batch(
                old(conf)@.packages,
                str_views(self.pkg_names@),
                add_events_view(events@),
            ),
            r@.len() == self.pkg_names@.len(),
            forall|i: int|
                0 <= i < r@.len() ==> add_outcome_matches(
                    self.pkg_names@[i]@,
                    add_events_view(events@)[i],
                    r@[i],
                ),
    {
        let ghost specs = str_views(self.pkg_names@);
        let ghost evs = add_events_view(events@);
        let n = self.pkg_names.len();
        let mut r: Vec<AddOutcome> = Vec::new();
        proof {
            assert(specs.subrange(0, specs.len() as int) =~= specs);
            assert(evs.subrange(0, evs.len() as int) =~= evs);
        }
        let mut i: usize = 0;
        while i < n
            invariant
                0 <= i <= n,
                n == self.pkg_names@.len(),
                specs == str_views(self.pkg_names@),
                evs == add_events_view(events@),
                events@.len() == n,
                r@.len() == i,
                conf.wf(),
                conf.project == old(conf).project,
                conf.scripts == old(conf).scripts,
                add_batch(old(conf)@.packages, specs, evs) == add_batch(
                    conf@.packages,
                    specs.subrange(i as int, n as int),
                    evs.subrange(i as int, n as int),
                ),
                forall|j: int|
                    0 <= j < i ==> add_outcome_matches(self.pkg_names@[j]@, evs[j], r@[j]),
            decreases n - i,
        {
            let ghost pre = conf@.packages;
            let ghost sub_s = specs.subrange(i as int, n as int);
            let ghost sub_e = evs.subrange(i as int, n as int);
            let o = add_item(conf, &self.pkg_names[i], events[i].install_ok, &events[i].resolved);
            proof {
                assert(sub_s[0] == specs[i as int]);
                assert(sub_e[0] == evs[i as int]);
                assert(sub_s.drop_first() =~= specs.subrange(i + 1 as int, n as int));
                assert(sub_e.drop_first() =~= evs.subrange(i + 1 as int, n as int));
                assert(add_batch(pre, sub_s, sub_e) == add_batch(
                    conf@.packages,
                    specs.subrange(i + 1 as int, n as int),
                    evs.subrange(i + 1 as int, n as int),
                ));
            }
            r.push(o);
            i += 1;
        }
        proof {
            assert(specs.subrange(i as int, n as int) =~= Seq::<Seq<char>>::empty());
            assert(evs.subrange(i as int, n as int) =~= Seq::<
                (bool, Option<Seq<char>>),
            >::empty());
        }
        r
    }
}

/// What one `remove` item came to.
#[derive(Debug, PartialEq, Eq)]
pub enum RemoveOutcome {
    /// The package was uninstalled and its entry dropped; the manifest
    /// must be persisted now.
    Removed { name: String },
    /// The manifest has no such entry; nothing was uninstalled.
    NotFound { name: String },
    /// The uninstaller failed; the entry stays.
    UninstallFailed { name: String },
}

/// How the package table moves for one `remove` item.
pub open spec fn remove_step(packages: TableView, name: Seq<char>, uninstall_ok: bool) -> TableView {
    if has_key(packages, name) && uninstall_ok {
        crate::manifest::tbl_remove(packages, name)
    } else {
        packages
    }
}

/// The outcome owed for one `remove` item.
pub open spec fn remove_outcome_matches(
    packages: TableView,
    name: Seq<char>,
    uninstall_ok: bool,
    o: RemoveOutcome,
) -> bool {
    match o {
        RemoveOutcome::NotFound { name: n } => !has_key(packages, name) && n@ == name,
        RemoveOutcome::UninstallFailed { name: n } => has_key(packages, name) && !uninstall_ok
            && n@ == name,
        RemoveOutcome::Removed { name: n } => has_key(packages, name) && uninstall_ok && n@
            == name,
    }
}

/// How the package table moves over a whole `remove` batch.
pub open spec fn remove_batch(
    packages: TableView,
    names: Seq<Seq<char>>,
    events: Seq<bool>,
) -> TableView
    decreases names.len(),
{
    if names.len() == 0 || events.len() == 0 {
        packages
    } else {
        remove_batch(
            remove_step(packages, names[0], events[0]),
            names.drop_first(),
            events.drop_first(),
        )
    }
}

/// Removing one more item after a batch is one more step.
proof fn lemma_remove_batch_snoc(
    packages: TableView,
    names: Seq<Seq<char>>,
    events: Seq<bool>,
    name: Seq<char>,
    ok: bool,
)
    requires
        names.len() == events.len(),
    ensures
        remove_batch(packages, names.push(name), events.push(ok)) == remove_step(
            remove_batch(packages, names, events),
            name,
            ok,
        ),
    decreases names.len(),
{
    if names.len() == 0 {
        assert(names.push(name)[0] == name);
        assert(events.push(ok)[0] == ok);
        assert(names.push(name).drop_first() =~= Seq::<Seq<char>>::empty());
        assert(events.push(ok).drop_first() =~= Seq::<bool>::empty());
        assert(remove_batch(packages, names.push(name), events.push(ok)) == remove_batch(
            remove_step(packages, name, ok),
            names.push(name).drop_first(),
            events.push(ok).drop_first(),
        ));
        assert(remove_batch(packages, names, events) == packages);
    } else {
        assert(names.push(name)[0] == names[0]);
        assert(events.push(ok)[0] == events[0]);
        assert(names.push(name).drop_first() =~= names.drop_first().push(name));
        assert(events.push(ok).drop_first() =~= events.drop_first().push(ok));
        lemma_remove_batch_snoc(
            remove_step(packages, names[0], events[0]),
            names.drop_first(),
            events.drop_first(),
            name,
            ok,
        );
    }
}

/// Process one `remove` item: the entry is dropped only when it exists
/// and the uninstall call reported success; otherwise the manifest is
/// left exactly as it was.
pub fn remove_item(conf: &mut Config, name: &String, uninstall_ok: bool) -> (r: RemoveOutcome)
    requires
        old(conf).wf(),
    ensures
        final(conf).wf(),
        final(conf).project == old(conf).project,
        final(conf).scripts == old(conf).scripts,
        final(conf)@.packages == remove_step(old(conf)@.packages, name@, uninstall_ok),
        remove_outcome_matches(old(conf)@.packages, name@, uninstall_ok, r),
{
    if !crate::manifest::table_contains_key(&conf.packages, name) {
        return RemoveOutcome::NotFound { name: name.clone() };
    }
    if !uninstall_ok {
        return RemoveOutcome::UninstallFailed { name: name.clone() };
    }
    crate::manifest::table_remove_key(&mut conf.packages, name);
    RemoveOutcome::Removed { name: name.clone() }
}

/// The `remove` command: a list of package names to uninstall and
/// drop.
pub struct RemovePackage {
    /// List of packages to remove
    pub pkg_names: Vec<String>,
}

impl RemovePackage {
    /// Process a whole `remove` batch against the uninstall events the
    /// environment reported.  An entry is dropped only when it existed
    /// and its uninstall succeeded.
    pub fn remove_package(&self, conf: &mut Config, events: &Vec<bool>) -> (r: Vec<RemoveOutcome>)
        requires
            old(conf).wf(),
            events@.len() == self.pkg_names@.len(),
        ensures
            final(conf).wf(),
            final(conf).project == old(conf).project,
            final(conf).scripts == old(conf).scripts,
            final(conf)@.packages == remove_batch(
                old(conf)@.packages,
                str_views(self.pkg_names@),
                events@,
            ),
            r@.len() == self.pkg_names@.len(),
            forall|i: int|
                0 <= i < r@.len() ==> remove_outcome_matches(
                    remove_batch(
                        old(conf)@.packages,
                        str_views(self.pkg_names@).subrange(0, i),
                        events@.subrange(0, i),
                    ),
                    self.pkg_names@[i]@,
                    events@[i],
                    r@[i],
                ),
    {
        let ghost names = str_views(self.pkg_names@);
        let n = self.pkg_names.len();
        let mut r: Vec<RemoveOutcome> = Vec::new();
        proof {
            assert(names.subrange(0, names.len() as int) =~= names);
            assert(events@.subrange(0, events@.len() as int) =~= events@);
            assert(names.subrange(0, 0) =~= Seq::<Seq<char>>::empty());
            assert(events@.subrange(0, 0) =~= Seq::<bool>::empty());
        }
        let mut i: usize = 0;
        while i < n
            invariant
                0 <= i <= n,
                n == self.pkg_names@.len(),
                names == str_views(self.pkg_names@),
                events@.len() == n,
                r@.len() == i,
                conf.wf(),
                conf.project == old(conf).project,
                conf.scripts == old(conf).scripts,
                conf@.packages == remove_batch(
                    old(conf)@.packages,
                    names.subrange(0, i as int),
                    events@.subrange(0, i as int),
                ),
                remove_batch(old(conf)@.packages, names, events@) == remove_batch(
                    conf@.packages,
                    names.subrange(i as int, n as int),
                    events@.subrange(i as int, n as int),
                ),
                forall|j: int|
                    0 <= j < i ==> remove_outcome_matches(
                        remove_batch(
                            old(conf)@.packages,
                            names.subrange(0, j),
                            events@.subrange(0, j),
                        ),
                        self.pkg_names@[j]@,
                        events@[j],
                        r@[j],
                    ),
            decreases n - i,
        {
            let ghost pre = conf@.packages;
            let ghost sub_n = names.subrange(i as int, n as int);
            let ghost sub_e = events@.subrange(i as int, n as int);
            let o = remove_item(conf, &self.pkg_names[i], events[i]);
            proof {
                assert(sub_n[0] == names[i as int]);
                assert(sub_e[0] == events@[i as int]);
                assert(sub_n.drop_first() =~= names.subrange(i + 1 as int, n as int));
                assert(sub_e.drop_first() =~= events@.subrange(i + 1 as int, n as int));
                assert(remove_batch(pre, sub_n, sub_e) == remove_batch(
                    conf@.packages,
                    names.subrange(i + 1 as int, n as int),
                    events@.subrange(i + 1 as int, n as int),
                ));
                lemma_remove_batch_snoc(
                    old(conf)@.packages,
                    names.subrange(0, i as int),
                    events@.subrange(0, i as int),
                    names[i as int],
                    events@[i as int],
                );
                assert(names.subrange(0, i as int).push(names[i as int]) =~= names.subrange(
                    0,
                    i + 1 as int,
                ));
                assert(events@.subrange(0, i as int).push(events@[i as int]) =~= events@.subrange(
                    0,
                    i + 1 as int,
                ));
            }
            r.push(o);
            i += 1;
        }
        proof {
            assert(names.subrange(i as int, n as int) =~= Seq::<Seq<char>>::empty());
            assert(events@.subrange(i as int, n as int) =~= Seq::<bool>::empty());
        }
        r
    }
}

/// What the environment reported back for one `update` item: the
/// resolved latest version, if resolution succeeded, and whether the
/// reinstall at that version succeeded.
pub struct UpdateEvent {
    pub name: String,
    pub resolved: Option<String>,
    pub install_ok: bool,
}

/// The view of an `update` event.
pub open spec fn update_event_view(e: UpdateEvent) -> (Seq<char>, Option<Seq<char>>, bool) {
    (e.name@, opt_view(e.resolved), e.install_ok)
}

/// The views of a list of `update` events.
pub open spec fn update_events_view(es: Seq<UpdateEvent>) -> Seq<(Seq<char>, Option<Seq<char>>, bool)> {
    es.map_values(|e: UpdateEvent| update_event_view(e))
}

/// An `update` item succeeded when a version was resolved and the
/// reinstall at it reported success.
pub open spec fn update_success(e: (Seq<char>, Option<Seq<char>>, bool)) -> bool {
    e.1 is Some && e.2
}

/// How the package table moves for one `update` item.
pub open spec fn update_step(
    packages: TableView,
    e: (Seq<char>, Option<Seq<char>>, bool),
) -> TableView {
    if update_success(e) {
        tbl_insert(packages, e.0, e.1->Some_0)
    } else {
        packages
    }
}

/// How the package table moves over a whole `update` batch.
pub open spec fn update_batch(
    packages: TableView,
    events: Seq<(Seq<char>, Option<Seq<char>>, bool)>,
) -> TableView
    decreases events.len(),
{
    if events.len() == 0 {
        packages
    } else {
        update_batch(update_step(packages, events[0]), events.drop_first())
    }
}

/// Merge an `update` batch into the manifest: only items whose version
/// was resolved and whose reinstall succeeded are written, each at its
/// resolved version; every other entry keeps its old version untouched.
/// The caller persists the manifest once after this call.
pub fn update_merge(conf: &mut Config, events: &Vec<UpdateEvent>)
    requires
        old(conf).wf(),
    ensures
        final(conf).wf(),
        final(conf).project == old(conf).project,
        final(conf).scripts == old(conf).scripts,
        final(conf)@.packages == update_batch(old(conf)@.packages, update_events_view(events@)),
{
    let ghost evs = update_events_view(events@);
    let n = events.len();
    proof {
        assert(evs.subrange(0, evs.len() as int) =~= evs);
    }
    let mut i: usize = 0;
    while i < n
        invariant
            0 <= i <= n,
            n == events@.len(),
            evs == update_events_view(events@),
            conf.wf(),
            conf.project == old(conf).project,
            conf.scripts == old(conf).scripts,
            update_batch(old(conf)@.packages, evs) == update_batch(
                conf@.packages,
                evs.subrange(i as int, n as int),
            ),
        decreases n - i,
    {
        let ghost pre = conf@.packages;
        let ghost sub = evs.subrange(i as int, n as int);
        proof {
            assert(sub[0] == evs[i as int]);
            assert(sub.drop_first() =~= evs.subrange(i + 1 as int, n as int));
        }
        if events[i].install_ok {
            match &events[i].resolved {
                Some(v) => {
                    table_set(&mut conf.packages, events[i].name.clone(), v.clone());
                },
                None => {},
            }
        }
        proof {
            assert(conf@.packages == update_step(pre, evs[i as int]));
            assert(update_batch(pre, sub) == update_batch(
                conf@.packages,
                evs.subrange(i + 1 as int, n as int),
            ));
        }
        i += 1;
    }
    proof {
        assert(evs.subrange(i as int, n as int) =~= Seq::<
            (Seq<char>, Option<Seq<char>>, bool),
        >::empty());
    }
}

/// One `add` step keeps keys unique, leaves every key other than the
/// item's own name untouched, and moves nothing at all when the
/// install failed.
proof fn lemma_add_step_frame(
    packages: TableView,
    spec: Seq<char>,
    ok: bool,
    res: Option<Seq<char>>,
    k: Seq<char>,
)
    requires
        unique_keys(packages),
    ensures
        unique_keys(add_step(packages, spec, ok, res)),
        split_pkg_spec(spec).0 != k ==> has_key(add_step(packages, spec, ok, res), k) == has_key(
            packages,
            k,
        ),
        split_pkg_spec(spec).0 != k && has_key(packages, k) ==> value_of(
            add_step(packages, spec, ok, res),
            k,
        ) == value_of(packages, k),
        !ok ==> add_step(packages, spec, ok, res) == packages,
{
    let nv = split_pkg_spec(spec);
    if ok {
        if nv.1.len() > 0 {
            lemma_insert_props(packages, nv.0, nv.1);
            crate::manifest::lemma_insert_unique(packages, nv.0, nv.1);
        } else {
            match res {
                Some(v) => {
                    lemma_insert_props(packages, nv.0, v);
                    crate::manifest::lemma_insert_unique(packages, nv.0, v);
                },
                None => {},
            }
        }
    }
}

/// LAW — `add` never inserts a manifest entry for a package whose
/// install call did not report success: if an `add` batch left `k`
/// holding a value it did not hold before, then some item of the batch
/// names `k` and its install event reported success.
pub proof fn lemma_add_only_installed(
    packages: TableView,
    specs: Seq<Seq<char>>,
    events: Seq<(bool, Option<Seq<char>>)>,
    k: Seq<char>,
)
    requires
        unique_keys(packages),
        specs.len() == events.len(),
        has_key(add_batch(packages, specs, events), k),
        !has_key(packages, k) || value_of(add_batch(packages, specs, events), k) != value_of(
            packages,
            k,
        ),
    ensures
        exists|i: int|
            0 <= i < specs.len() && split_pkg_spec(#[trigger] specs[i]).0 == k && events[i].0,
    decreases specs.len(),
{
    let r = add_batch(packages, specs, events);
    if specs.len() == 0 {
        assert(r == packages);
    } else {
        let p1 = add_step(packages, specs[0], events[0].0, events[0].1);
        lemma_add_step_frame(packages, specs[0], events[0].0, events[0].1, k);
        let same_at_k = has_key(p1, k) == has_key(packages, k) && (has_key(packages, k)
            ==> value_of(p1, k) == value_of(packages, k));
        if same_at_k {
            lemma_add_only_installed(p1, specs.drop_first(), events.drop_first(), k);
            let j = choose|j: int|
                0 <= j < specs.drop_first().len() && split_pkg_spec(
                    #[trigger] specs.drop_first()[j],
                ).0 == k && events.drop_first()[j].0;
            assert(specs[j + 1] == specs.drop_first()[j]);
            assert(events[j + 1] == events.drop_first()[j]);
            assert(split_pkg_spec(specs[j + 1]).0 == k && events[j + 1].0);
        } else {
            assert(split_pkg_spec(specs[0]).0 == k && events[0].0);
        }
    }
}

/// One `remove` step keeps keys unique, leaves every other key
/// untouched, and moves nothing when the uninstall failed.
proof fn lemma_remove_step_frame(packages: TableView, name: Seq<char>, ok: bool, k: Seq<char>)
    requires
        unique_keys(packages),
    ensures
        unique_keys(remove_step(packages, name, ok)),
        name != k ==> has_key(remove_step(packages, name, ok), k) == has_key(packages, k),
        name != k && has_key(packages, k) ==> value_of(remove_step(packages, name, ok), k)
            == value_of(packages, k),
        !ok ==> remove_step(packages, name, ok) == packages,
{
    if has_key(packages, name) && ok {
        crate::manifest::lemma_remove_props(packages, name);
        crate::manifest::lemma_remove_unique(packages, name);
    }
}

/// LAW — `remove` never deletes a manifest entry whose uninstall call
/// did not report success: if a `remove` batch dropped the entry for
/// `k`, then some item of the batch names `k` and its uninstall event
/// reported success.
pub proof fn lemma_remove_only_uninstalled(
    packages: TableView,
    names: Seq<Seq<char>>,
    events: Seq<bool>,
    k: Seq<char>,
)
    requires
        unique_keys(packages),
        names.len() == events.len(),
        has_key(packages, k),
        !has_key(remove_batch(packages, names, events), k),
    ensures
        exists|i: int| 0 <= i < names.len() && #[trigger] names[i] == k && events[i],
    decreases names.len(),
{
    let r = remove_batch(packages, names, events);
    if names.len() == 0 {
        assert(r == packages);
    } else {
        let p1 = remove_step(packages, names[0], events[0]);
        lemma_remove_step_frame(packages, names[0], events[0], k);
        if has_key(p1, k) {
            lemma_remove_only_uninstalled(p1, names.drop_first(), events.drop_first(), k);
            let j = choose|j: int|
                0 <= j < names.drop_first().len() && #[trigger] names.drop_first()[j] == k
                    && events.drop_first()[j];
            assert(names[j + 1] == names.drop_first()[j]);
            assert(events[j + 1] == events.drop_first()[j]);
            assert(names[j + 1] == k && events[j + 1]);
        } else {
            assert(names[0] == k && events[0]);
        }
    }
}

/// One `update` step keeps keys unique, leaves every key other than
/// the item's name untouched, and moves nothing when the item did not
/// fully succeed.
proof fn lemma_update_step_frame(
    packages: TableView,
    e: (Seq<char>, Option<Seq<char>>, bool),
    k: Seq<char>,
)
    requires
        unique_keys(packages),
    ensures
        unique_keys(update_step(packages, e)),
        e.0 != k ==> has_key(update_step(packages, e), k) == has_key(packages, k),
        e.0 != k && has_key(packages, k) ==> value_of(update_step(packages, e), k) == value_of(
            packages,
            k,
        ),
        !update_success(e) ==> update_step(packages, e) == packages,
        update_success(e) ==> has_key(update_step(packages, e), e.0) && value_of(
            update_step(packages, e),
            e.0,
        ) == e.1->Some_0,
{
    if update_success(e) {
        lemma_insert_props(packages, e.0, e.1->Some_0);
        crate::manifest::lemma_insert_unique(packages, e.0, e.1->Some_0);
    }
}

/// LAW — `update` leaves untouched every package without a fully
/// successful event: if no event of the batch both names `k` and
/// succeeded (version resolved and reinstall reported success), then
/// `k`'s presence and pinned version are exactly as before.
pub proof fn lemma_update_untouched(
    packages: TableView,
    events: Seq<(Seq<char>, Option<Seq<char>>, bool)>,
    k: Seq<char>,
)
    requires
        unique_keys(packages),
        forall|i: int|
            0 <= i < events.len() ==> !((#[trigger] events[i]).0 == k && update_success(
                events[i],
            )),
    ensures
        has_key(update_batch(packages, events), k) == has_key(packages, k),
        has_key(packages, k) ==> value_of(update_batch(packages, events), k) == value_of(
            packages,
            k,
        ),
    decreases events.len(),
{
    if events.len() > 0 {
        let p1 = update_step(packages, events[0]);
        lemma_update_step_frame(packages, events[0], k);
        assert(forall|i: int|
            0 <= i < events.drop_first().len() ==> events.drop_first()[i] == events[i + 1]);
        lemma_update_untouched(p1, events.drop_first(), k);
    }
}

/// LAW — `update` persists a fully successful package at its resolved
/// version: after the batch, a package whose last successful event
/// resolved to `v` is pinned at exactly `v`.
pub proof fn lemma_update_applied(
    packages: TableView,
    events: Seq<(Seq<char>, Option<Seq<char>>, bool)>,
    i: int,
)
    requires
        unique_keys(packages),
        0 <= i < events.len(),
        update_success(events[i]),
        forall|j: int|
            i < j < events.len() ==> !((#[trigger] events[j]).0 == events[i].0 && update_success(
                events[j],
            )),
    ensures
        has_key(update_batch(packages, events), events[i].0),
        value_of(update_batch(packages, events), events[i].0) == events[i].1->Some_0,
    decreases events.len(),
{
    let p1 = update_step(packages, events[0]);
    lemma_update_step_frame(packages, events[0], events[i].0);
    assert(forall|j: int|
        0 <= j < events.drop_first().len() ==> events.drop_first()[j] == events[j + 1]);
    if i == 0 {
        lemma_update_untouched(p1, events.drop_first(), events[0].0);
    } else {
        lemma_update_applied(p1, events.drop_first(), i - 1);
    }
}

/// The `run` command: hand a named script's command line to a shell.
pub struct RunScript {
    /// Script Name
    pub script_name: String,
}

impl RunScript {
    /// The command the named script stands for, or nothing when the
    /// manifest has no such script.  `run` only reads the manifest;
    /// it never mutates it.
    pub fn command(&self, conf: &Config) -> (r: Option<String>)
        requires
            conf.wf(),
        ensures
            r is Some <==> has_key(conf@.scripts, self.script_name@),
            match r {
                Some(cmd) => cmd@ == value_of(conf@.scripts, self.script_name@),
                None => true,
            },
    {
        match crate::manifest::table_get(&conf.scripts, &self.script_name) {
            Some(v) => Some(v.clone()),
            None => None,
        }
    }
}

/// The `install` command: from a requirements file, or everything the
/// manifest pins in one combined reinstall.
pub struct Installer {
    /// Install from requirements
    pub requirements: String,
}

impl Installer {
    /// Whether a requirements path was given; without one, `install`
    /// reinstalls what the manifest pins.
    pub fn from_requirements(&self) -> (r: bool)
        ensures
            r == (self.requirements@.len() > 0),
    {
        self.requirements.as_str().unicode_len() > 0
    }
}

/// The pinned form of one manifest entry: `name==version`.
pub open spec fn pin_of(p: (Seq<char>, Seq<char>)) -> Seq<char> {
    p.0 + seq!['=', '='] + p.1
}

/// The pinned form of every manifest entry, one string per package,
/// in manifest order: the arguments of one combined reinstall call.
pub fn reinstall_args(conf: &Config) -> (r: Vec<String>)
    ensures
        r@.map_values(|s: String| s@) == conf@.packages.map_values(
            |p: (Seq<char>, Seq<char>)| pin_of(p),
        ),
{
    let ghost tv = conf@.packages;
    let ghost goal = tv.map_values(|p: (Seq<char>, Seq<char>)| pin_of(p));
    let n = conf.packages.len();
    let mut r: Vec<String> = Vec::new();
    let mut i: usize = 0;
    while i < n
        invariant
            0 <= i <= n,
            n == conf.packages@.len(),
            tv == conf@.packages,
            goal == tv.map_values(|p: (Seq<char>, Seq<char>)| pin_of(p)),
            r@.len() == i,
            forall|j: int| 0 <= j < i ==> #[trigger] r@[j]@ == goal[j],
        decreases n - i,
    {
        let mut buf = crate::text::chars_of_string(&conf.packages[i].0);
        buf.push('=');
        buf.push('=');
        crate::text::push_str_chars(&mut buf, conf.packages[i].1.as_str());
        proof {
            assert(buf@ =~= pin_of(tv[i as int]));
        }
        r.push(crate::text::string_of_chars(&buf));
        i += 1;
    }
    proof {
        assert(r@.map_values(|s: String| s@) =~= goal);
    }
    r
}

/// The text of a generated requirements file: one `name==version`
/// line per manifest entry, in manifest order.
pub open spec fn req_text(t: TableView) -> Seq<char>
    decreases t.len(),
{
    if t.len() == 0 {
        Seq::empty()
    } else {
        pin_of(t[0]) + seq!['\n'] + req_text(t.drop_first())
    }
}

/// Pinned lines distribute over table concatenation.
proof fn lemma_req_text_app(a: TableView, b: TableView)
    ensures
        req_text(a + b) == req_text(a) + req_text(b),
    decreases a.len(),
{
    if a.len() == 0 {
        assert(a + b =~= b);
        assert(req_text(a) + req_text(b) =~= req_text(b));
    } else {
        assert((a + b)[0] == a[0]);
        assert((a + b).drop_first() =~= a.drop_first() + b);
        lemma_req_text_app(a.drop_first(), b);
        assert(req_text(a + b) =~= pin_of(a[0]) + seq!['\n'] + (req_text(a.drop_first())
            + req_text(b)));
        assert(req_text(a) + req_text(b) =~= pin_of(a[0]) + seq!['\n'] + (req_text(
            a.drop_first(),
        ) + req_text(b)));
    }
}

/// Render the manifest's package pins as a requirements file.
pub fn requirements_text(conf: &Config) -> (r: String)
    ensures
        r@ == req_text(conf@.packages),
{
    let ghost tv = conf@.packages;
    let n = conf.packages.len();
    let mut buf: Vec<char> = Vec::new();
    proof {
        assert(tv.subrange(0, 0) =~= Seq::<(Seq<char>, Seq<char>)>::empty());
        assert(buf@ + req_text(tv.subrange(0, 0)) =~= buf@);
    }
    let mut i: usize = 0;
    while i < n
        invariant
            0 <= i <= n,
            n == conf.packages@.len(),
            tv == conf@.packages,
            buf@ == req_text(tv.subrange(0, i as int)),
        decreases n - i,
    {
        crate::text::push_str_chars(&mut buf, conf.packages[i].0.as_str());
        buf.push('=');
        buf.push('=');
        crate::text::push_str_chars(&mut buf, conf.packages[i].1.as_str());
        buf.push('\n');
        proof {
            lemma_req_text_app(tv.subrange(0, i as int), seq![tv[i as int]]);
            assert(seq![tv[i as int]].drop_first() =~= Seq::<(Seq<char>, Seq<char>)>::empty());
            assert(req_text(Seq::<(Seq<char>, Seq<char>)>::empty()) == Seq::<char>::empty());
            assert(req_text(seq![tv[i as int]]) =~= pin_of(tv[i as int]) + seq!['\n'] + req_text(
                seq![tv[i as int]].drop_first(),
            ));
            assert(tv.subrange(0, i + 1 as int) =~= tv.subrange(0, i as int) + seq![tv[i as int]]);
            assert(buf@ =~= req_text(tv.subrange(0, i + 1 as int)));
        }
        i += 1;
    }
    proof {
        assert(tv.subrange(0, n as int) =~= tv);
    }
    crate::text::string_of_chars(&buf)
}

/// The index of the last fully successful event naming `k`, or `-1`
/// when the batch holds none.
pub open spec fn last_update_for(
    events: Seq<(Seq<char>, Option<Seq<char>>, bool)>,
    k: Seq<char>,
) -> int
    decreases events.len(),
{
    if events.len() == 0 {
        -1
    } else if events.last().0 == k && update_success(events.last()) {
        events.len() - 1
    } else {
        last_update_for(events.drop_last(), k)
    }
}

/// `last_update_for` points at a success for `k` that nothing after
/// it repeats, and `-1` means the batch holds no success for `k`.
proof fn lemma_last_update_for(events: Seq<(Seq<char>, Option<Seq<char>>, bool)>, k: Seq<char>)
    ensures
        last_update_for(events, k) == -1 ==> forall|i: int|
            0 <= i < events.len() ==> !((#[trigger] events[i]).0 == k && update_success(
                events[i],
            )),
        last_update_for(events, k) != -1 ==> {
            let m = last_update_for(events, k);
            &&& 0 <= m < events.len()
            &&& events[m].0 == k
            &&& update_success(events[m])
            &&& forall|j: int|
                m < j < events.len() ==> !((#[trigger] events[j]).0 == k && update_success(
                    events[j],
                ))
        },
    decreases events.len(),
{
    if events.len() > 0 {
        lemma_last_update_for(events.drop_last(), k);
        assert(forall|i: int|
            0 <= i < events.len() - 1 ==> events.drop_last()[i] == events[i]);
        assert(events.last() == events[events.len() - 1]);
    }
}

/// LAW — `update` persists exactly the subset that fully succeeded,
/// with no assumption on the shape of the batch: for every package
/// `k`, if no event both names `k` and succeeded (version resolved
/// and reinstall reported success), `k`'s presence and pinned version
/// are untouched; otherwise `k` is present, pinned at the version the
/// last successful event naming it resolved.
pub proof fn lemma_update_exact(
    packages: TableView,
    events: Seq<(Seq<char>, Option<Seq<char>>, bool)>,
    k: Seq<char>,
)
    requires
        unique_keys(packages),
    ensures
        last_update_for(events, k) == -1 ==> has_key(update_batch(packages, events), k)
            == has_key(packages, k),
        last_update_for(events, k) == -1 && has_key(packages, k) ==> value_of(
            update_batch(packages, events),
            k,
        ) == value_of(packages, k),
        last_update_for(events, k) != -1 ==> has_key(update_batch(packages, events), k)
            && value_of(update_batch(packages, events), k) == events[last_update_for(
            events,
            k,
        )].1->Some_0 && events[last_update_for(events, k)].0 == k && update_success(
            events[last_update_for(events, k)],
        ),
{
    lemma_last_update_for(events, k);
    if last_update_for(events, k) == -1 {
        lemma_update_untouched(packages, events, k);
    } else {
        lemma_update_applied(packages, events, last_update_for(events, k));
    }
}

/// Arguments of project creation.
pub struct ProjectConf {
    /// Set Project Name
    pub name: String,
    /// Set Project Version
    pub version: String,
    /// Set Project Description
    pub description: String,
    /// Enable Git
    pub git: bool,
    /// Don't Create Virtual Environment
    pub no_venv: bool,
}

/// A path inside the project directory: bare for `init`, under the
/// project's name otherwise.
pub open spec fn spec_path_with(is_init: bool, name: Seq<char>, path: Seq<char>) -> Seq<char> {
    if is_init {
        path
    } else {
        name + seq!['/'] + path
    }
}

/// The fresh manifest of a new project: the given metadata, no
/// packages, and one starter script that upgrades pip.
pub open spec fn initial_config_spec(
    is_init: bool,
    name: Seq<char>,
    version: Seq<char>,
    description: Seq<char>,
) -> crate::manifest::ConfigView {
    crate::manifest::ConfigView {
        project: crate::manifest::ProjectView {
            name: name,
            version: version,
            description: description,
            main_script: if is_init {
                "./main.py"@
            } else {
                "./src/main.py"@
            },
        },
        packages: Seq::empty(),
        scripts: seq![("upgrade-pip"@, "python -m pip install --upgrade pip"@)],
    }
}

/// Plans and renders everything project creation writes.
pub struct ProjectCreator {
    pub project: ProjectConf,
    pub is_init: bool,
}

impl ProjectCreator {
    pub fn new(project: ProjectConf, is_init: bool) -> (r: ProjectCreator)
        ensures
            r.project == project,
            r.is_init == is_init,
    {
        ProjectCreator { project, is_init }
    }

    /// The location of `path` for this project.
    pub fn get_path_with(&self, path: &str) -> (r: String)
        ensures
            r@ == spec_path_with(self.is_init, self.project.name@, path@),
    {
        if self.is_init {
            String::from_str(path)
        } else {
            let mut buf = crate::text::chars_of_string(&self.project.name);
            buf.push('/');
            crate::text::push_str_chars(&mut buf, path);
            proof {
                assert(buf@ =~= self.project.name@ + seq!['/'] + path@);
            }
            crate::text::string_of_chars(&buf)
        }
    }

    /// The fresh manifest this project starts with.
    pub fn initial_config(&self) -> (c: Config)
        ensures
            c@ == initial_config_spec(
                self.is_init,
                self.project.name@,
                self.project.version@,
                self.project.description@,
            ),
            c.wf(),
    {
        let main_script = if self.is_init {
            String::from_str("./main.py")
        } else {
            String::from_str("./src/main.py")
        };
        let project = crate::manifest::Project::new(
            self.project.name.clone(),
            self.project.version.clone(),
            self.project.description.clone(),
            main_script,
        );
        let mut scripts: Vec<(String, String)> = Vec::new();
        scripts.push(
            (String::from_str("upgrade-pip"), String::from_str(
                "python -m pip install --upgrade pip",
            )),
        );
        let c = Config::new(project, Vec::new(), scripts);
        proof {
            assert(c@.packages =~= Seq::<(Seq<char>, Seq<char>)>::empty());
            assert(c@.scripts =~= seq![("upgrade-pip"@, "python -m pip install --upgrade pip"@)]);
            assert(c@ =~= initial_config_spec(
                self.is_init,
                self.project.name@,
                self.project.version@,
                self.project.description@,
            ));
        }
        c
    }

    /// Where the manifest file goes and what it holds: the rendered
    /// form of the fresh manifest.
    pub fn save_config(&self) -> (r: (String, String))
        ensures
            r.0@ == spec_path_with(self.is_init, self.project.name@, "project.toml"@),
            r.1@ == crate::store::save_spec(
                initial_config_spec(
                    self.is_init,
                    self.project.name@,
                    self.project.version@,
                    self.project.description@,
                ),
            ),
    {
        let path = self.get_path_with("project.toml");
        let conf = self.initial_config();
        let text = crate::store::save(&conf);
        (path, text)
    }
}

/// Everything the surrounding program must do to create a project:
/// which directory to make, which files to write with which contents,
/// and which external tools to run.  Decided and rendered here;
/// carried out outside.
pub struct CreatePlan {
    pub src_dir: String,
    pub main_py_path: String,
    pub main_py_text: String,
    pub gitignore_path: String,
    pub venv_path: String,
    pub config_path: String,
    pub config_text: String,
    pub make_git: bool,
    pub make_venv: bool,
}

impl ProjectConf {
    /// Plan the creation of a project: in a subdirectory named after
    /// it, or in the current directory for `init`.  The manifest text
    /// is the rendered fresh manifest; git and the virtual environment
    /// are made only when asked for.
    pub fn create_project(&self, is_init: bool) -> (p: CreatePlan)
        ensures
            p.src_dir@ == spec_path_with(is_init, self.name@, "src"@),
            p.main_py_path@ == spec_path_with(is_init, self.name@, "src/main.py"@),
            p.gitignore_path@ == spec_path_with(is_init, self.name@, ".gitignore"@),
            p.venv_path@ == spec_path_with(is_init, self.name@, "venv"@),
            p.config_path@ == spec_path_with(is_init, self.name@, "project.toml"@),
            p.config_text@ == crate::store::save_spec(
                initial_config_spec(is_init, self.name@, self.version@, self.description@),
            ),
            p.main_py_text@
                == "\r\ndef main():\n    print('Hello From PPM!')\n\nif __name__ == '__main__':\n    main()\n"@,
            p.make_git == self.git,
            p.make_venv == !self.no_venv,
    {
        let pc = ProjectCreator::new(
            ProjectConf {
                name: self.name.clone(),
                version: self.version.clone(),
                description: self.description.clone(),
                git: self.git,
                no_venv: self.no_venv,
            },
            is_init,
        );
        let (config_path, config_text) = pc.save_config();
        CreatePlan {
            src_dir: pc.get_path_with("src"),
            main_py_path: pc.get_path_with("src/main.py"),
            main_py_text: String::from_str(
                "\r\ndef main():\n    print('Hello From PPM!')\n\nif __name__ == '__main__':\n    main()\n",
            ),
            gitignore_path: pc.get_path_with(".gitignore"),
            venv_path: pc.get_path_with("venv"),
            config_path,
            config_text,
            make_git: self.git,
            make_venv: !self.no_venv,
        }
    }
}

/// The commands the tool answers to.
pub enum Action {
    /// Create New Project With Given Name
    New(ProjectConf),
    /// Initialize Project In Current Directory
    Init(ProjectConf),
    /// Add new packages to project
    Add(AddPackage),
    /// Remove packages from project
    Rm(RemovePackage),
    /// Run a script defined in the manifest
    Run(RunScript),
    /// Install packages from the manifest or a requirements file
    Install(Installer),
    /// Run the manifest's main script
    Start,
    /// Generate a requirements file
    Gen,
    /// Show the manifest
    Info,
    /// Update all packages
    Update,
}

} // verus!
