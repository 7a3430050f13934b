//! The persistent enable/disable bookkeeping of applications.
//!
//! Three name-keyed maps of descriptor references. The daemon reads and
//! writes the file this is stored in and computes the descriptor
//! checksums; the map transitions are verified here. Maps are held as
//! association lists; an insert drops any older binding of the key and
//! appends the new one.

use vstd::prelude::*;

use crate::config::read_config::{flat_apps, same_app, App, AppConfig};
use crate::strutil::str_eq;

verus! {

/// Where an application's descriptor lives, with a checksum of the file as
/// it was last read.
#[derive(Debug)]
pub struct AppReference {
    pub config_path: String,
    pub checksum: Option<String>,
}

impl AppReference {
    /// An equal copy.
    pub fn dup(&self) -> (r: Self)
        ensures
            r == *self,
    {
        AppReference {
            config_path: self.config_path.clone(),
            checksum: crate::strutil::clone_opt_string(&self.checksum),
        }
    }
}

/// The map without any binding of the given name.
pub open spec fn refs_remove(m: Seq<(String, AppReference)>, name: Seq<char>) -> Seq<
    (String, AppReference),
>
    decreases m.len(),
{
    if m.len() == 0 {
        Seq::empty()
    } else {
        let prefix = refs_remove(m.drop_last(), name);
        if m.last().0@ == name {
            prefix
        } else {
            prefix.push(m.last())
        }
    }
}

/// The first binding of the given name, if any.
pub open spec fn refs_lookup(m: Seq<(String, AppReference)>, name: Seq<char>) -> Option<
    AppReference,
>
    decreases m.len(),
{
    if m.len() == 0 {
        None
    } else if m[0].0@ == name {
        Some(m[0].1)
    } else {
        refs_lookup(m.drop_first(), name)
    }
}

/// Drop every binding of a name from an association list, returning the
/// first dropped reference.
fn remove_ref(m: &mut Vec<(String, AppReference)>, name: &str) -> (r: Option<AppReference>)
    ensures
        final(m)@ == refs_remove(old(m)@, name@),
        r == refs_lookup(old(m)@, name@),
{
    let ghost all = m@;
    let mut out: Vec<(String, AppReference)> = Vec::new();
    let mut found: Option<AppReference> = None;
    let mut i: usize = 0;
    proof {
        assert(all.skip(0) =~= all);
    }
    while i < m.len()
        invariant
            i <= all.len(),
            m@ == all,
            out@ == refs_remove(all.take(i as int), name@),
            (match found {
                Some(x) => refs_lookup(all, name@) == Some(x),
                None => refs_lookup(all, name@) == refs_lookup(all.skip(i as int), name@),
            }),
        decreases all.len() - i,
    {
        let pair = &m[i];
        proof {
            assert(all.skip(i as int)[0] == all[i as int]);
            assert(all.skip(i as int).drop_first() =~= all.skip(i + 1));
        }
        if str_eq(pair.0.as_str(), name) {
            let already = match &found {
                Some(_) => true,
                None => false,
            };
            if !already {
                found = Some(pair.1.dup());
            }
        } else {
            out.push((pair.0.clone(), pair.1.dup()));
        }
        proof {
            assert(all.take(i + 1).drop_last() =~= all.take(i as int));
            assert(all.take(i + 1).last() == all[i as int]);
        }
        i += 1;
    }
    proof {
        assert(all.take(all.len() as int) =~= all);
        assert(all.skip(all.len() as int).len() == 0);
    }
    *m = out;
    found
}

/// Bind a name, dropping any older binding first.
fn insert_ref(m: &mut Vec<(String, AppReference)>, name: String, r: AppReference)
    ensures
        final(m)@ == refs_remove(old(m)@, name@).push((name, r)),
{
    let _ = remove_ref(m, name.as_str());
    m.push((name, r));
}

/// Looking a name up after appending a binding: the old binding wins, else
/// the appended one when its key matches.
proof fn lemma_lookup_push(m: Seq<(String, AppReference)>, p: (String, AppReference), n: Seq<char>)
    ensures
        refs_lookup(m, n) is Some ==> refs_lookup(m.push(p), n) == refs_lookup(m, n),
        refs_lookup(m, n) is None && p.0@ == n ==> refs_lookup(m.push(p), n) == Some(p.1),
        refs_lookup(m, n) is None && p.0@ != n ==> refs_lookup(m.push(p), n) is None,
    decreases m.len(),
{
    if m.len() == 0 {
        assert(m.push(p)[0] == p);
        assert(m.push(p).drop_first() =~= Seq::<(String, AppReference)>::empty());
        assert(refs_lookup(m.push(p).drop_first(), n) is None);
    } else {
        assert(m.push(p)[0] == m[0]);
        if m[0].0@ == n {
            assert(refs_lookup(m, n) == Some(m[0].1));
            assert(refs_lookup(m.push(p), n) == Some(m[0].1));
        } else {
            assert(refs_lookup(m, n) == refs_lookup(m.drop_first(), n));
            assert(m.push(p).drop_first() =~= m.drop_first().push(p));
            lemma_lookup_push(m.drop_first(), p, n);
            assert(refs_lookup(m.push(p), n) == refs_lookup(m.drop_first().push(p), n));
        }
    }
}

/// Dropping one name's bindings: its own lookups become empty, the others
/// are untouched.
proof fn lemma_lookup_remove(m: Seq<(String, AppReference)>, n: Seq<char>, n2: Seq<char>)
    ensures
        n2 == n ==> refs_lookup(refs_remove(m, n), n2) is None,
        n2 != n ==> refs_lookup(refs_remove(m, n), n2) == refs_lookup(m, n2),
    decreases m.len(),
{
    if m.len() > 0 {
        lemma_lookup_remove(m.drop_last(), n, n2);
        assert(m.drop_last().push(m.last()) =~= m);
        lemma_lookup_push(m.drop_last(), m.last(), n2);
        if m.last().0@ != n {
            lemma_lookup_push(refs_remove(m.drop_last(), n), m.last(), n2);
        }
    }
}

/// The applications a configuration document declares.
pub open spec fn spec_apps_of(config: AppConfig) -> Seq<App> {
    match config {
        AppConfig::SingleApp(app) => seq![*app],
        AppConfig::MultiApp(ps) => flat_apps(ps@),
    }
}

/// The enabled, disabled and deleted applications, each a reference to its
/// descriptor. `last_updated` is the unix time of the last change.
#[derive(Debug)]
pub struct BpmConfig {
    pub enabled: Vec<(String, AppReference)>,
    pub disabled: Vec<(String, AppReference)>,
    pub deleted: Vec<(String, AppReference)>,
    pub last_updated: i64,
}

/// A snapshot of which applications are enabled, disabled and running.
#[derive(Debug)]
pub struct BpmState {
    pub enabled: Vec<(String, AppReference)>,
    pub disabled: Vec<(String, AppReference)>,
    pub running: Vec<(String, AppReference)>,
}

/// The name is one of the declared applications' names.
pub open spec fn is_declared(decl: Seq<App>, n: Seq<char>) -> bool {
    exists|k: int| 0 <= k < decl.len() && (#[trigger] decl[k]).name@ == n
}

impl BpmConfig {
    /// Empty maps, stamped with the given time.
    pub fn new(now: i64) -> (r: Self)
        ensures
            r.enabled@.len() == 0,
            r.disabled@.len() == 0,
            r.deleted@.len() == 0,
            r.last_updated == now,
    {
        BpmConfig {
            enabled: Vec::new(),
            disabled: Vec::new(),
            deleted: Vec::new(),
            last_updated: now,
        }
    }

    /// Enable every application of a parsed configuration document: each
    /// declared name is bound in the enabled map to the document's path and
    /// checksum and leaves the disabled and deleted maps; every other name's
    /// bindings stand as they were. The change is stamped.
    pub fn enable_apps_from_config(
        &mut self,
        config: &AppConfig,
        config_path: &str,
        checksum: Option<String>,
        now: i64,
    )
        requires
            (config matches AppConfig::MultiApp(ps) ==> ps@.len() > 0),
        ensures
            final(self).last_updated == now,
            (forall|k: int|
                0 <= k < spec_apps_of(*config).len() ==> (match refs_lookup(
                    final(self).enabled@,
                    (#[trigger] spec_apps_of(*config)[k]).name@,
                ) {
                    Some(r) => r.config_path@ == config_path@ && (match (r.checksum, checksum) {
                        (Some(a), Some(b)) => a@ == b@,
                        (None, None) => true,
                        _ => false,
                    }),
                    None => false,
                })),
            (forall|k: int|
                0 <= k < spec_apps_of(*config).len() ==> refs_lookup(
                    final(self).disabled@,
                    (#[trigger] spec_apps_of(*config)[k]).name@,
                ) is None && refs_lookup(
                    final(self).deleted@,
                    spec_apps_of(*config)[k].name@,
                ) is None),
            (forall|n2: Seq<char>|
                !is_declared(spec_apps_of(*config), n2) ==> #[trigger] refs_lookup(
                    final(self).enabled@,
                    n2,
                ) == refs_lookup(old(self).enabled@, n2)),
            (forall|n2: Seq<char>|
                !is_declared(spec_apps_of(*config), n2) ==> #[trigger] refs_lookup(
                    final(self).disabled@,
                    n2,
                ) == refs_lookup(old(self).disabled@, n2)),
            (forall|n2: Seq<char>|
                !is_declared(spec_apps_of(*config), n2) ==> #[trigger] refs_lookup(
                    final(self).deleted@,
                    n2,
                ) == refs_lookup(old(self).deleted@, n2)),
    {
        let (_, apps) = config.get_apps();
        let ghost decl = spec_apps_of(*config);
        let mut i: usize = 0;
        while i < apps.len()
            invariant
                i <= apps@.len(),
                apps@.len() == decl.len(),
                (forall|k: int|
                    0 <= k < apps@.len() ==> same_app(#[trigger] apps@[k], decl[k])),
                (forall|k: int|
                    0 <= k < i ==> (match refs_lookup(
                        self.enabled@,
                        (#[trigger] decl[k]).name@,
                    ) {
                        Some(r) => r.config_path@ == config_path@ && (match (
                            r.checksum,
                            checksum,
                        ) {
                            (Some(a), Some(b)) => a@ == b@,
                            (None, None) => true,
                            _ => false,
                        }),
                        None => false,
                    })),
                (forall|k: int|
                    0 <= k < i ==> refs_lookup(self.disabled@, (#[trigger] decl[k]).name@)
                        is None && refs_lookup(self.deleted@, decl[k].name@) is None),
                (forall|n2: Seq<char>|
                    !is_declared(decl.take(i as int), n2) ==> #[trigger] refs_lookup(
                        self.enabled@,
                        n2,
                    ) == refs_lookup(old(self).enabled@, n2)),
                (forall|n2: Seq<char>|
                    !is_declared(decl.take(i as int), n2) ==> #[trigger] refs_lookup(
                        self.disabled@,
                        n2,
                    ) == refs_lookup(old(self).disabled@, n2)),
                (forall|n2: Seq<char>|
                    !is_declared(decl.take(i as int), n2) ==> #[trigger] refs_lookup(
                        self.deleted@,
                        n2,
                    ) == refs_lookup(old(self).deleted@, n2)),
                self.last_updated == old(self).last_updated,
            decreases apps@.len() - i,
        {
            let app_ref = AppReference {
                config_path: config_path.to_owned(),
                checksum: crate::strutil::clone_opt_string(&checksum),
            };
            let name = apps[i].name.clone();
            let ghost en0 = self.enabled@;
            let ghost dis0 = self.disabled@;
            let ghost del0 = self.deleted@;
            let _ = remove_ref(&mut self.disabled, name.as_str());
            let _ = remove_ref(&mut self.deleted, name.as_str());
            insert_ref(&mut self.enabled, name, app_ref);
            proof {
                let nm = decl[i as int].name@;
                assert forall|n2: Seq<char>|
                    #![trigger refs_lookup(self.enabled@, n2)]
                    #![trigger refs_lookup(self.disabled@, n2)]
                    #![trigger refs_lookup(self.deleted@, n2)]
                    true implies {
                    &&& (n2 == nm ==> {
                        &&& refs_lookup(self.enabled@, n2) matches Some(r2)
                            && r2.config_path@ == config_path@ && (match (
                            r2.checksum,
                            checksum,
                        ) {
                            (Some(a), Some(b)) => a@ == b@,
                            (None, None) => true,
                            _ => false,
                        })
                        &&& refs_lookup(self.disabled@, n2) is None
                        &&& refs_lookup(self.deleted@, n2) is None
                    })
                    &&& (n2 != nm ==> refs_lookup(self.enabled@, n2) == refs_lookup(en0, n2)
                        && refs_lookup(self.disabled@, n2) == refs_lookup(dis0, n2)
                        && refs_lookup(self.deleted@, n2) == refs_lookup(del0, n2))
                } by {
                    lemma_lookup_remove(dis0, nm, n2);
                    lemma_lookup_remove(del0, nm, n2);
                    lemma_lookup_remove(en0, nm, n2);
                    lemma_lookup_push(refs_remove(en0, nm), self.enabled@.last(), n2);
                    assert(self.enabled@ =~= refs_remove(en0, nm).push(self.enabled@.last()));
                }
                assert(decl.take(i + 1).drop_last() =~= decl.take(i as int));
                assert(decl.take(i + 1).last() == decl[i as int]);
                assert forall|n2: Seq<char>| !is_declared(decl.take(i + 1), n2) implies !(
                is_declared(decl.take(i as int), n2)) && n2 != nm by {
                    if is_declared(decl.take(i as int), n2) {
                        let k = choose|k: int|
                            0 <= k < decl.take(i as int).len() && (#[trigger] decl.take(
                                i as int,
                            )[k]).name@ == n2;
                        assert(decl.take(i + 1)[k].name@ == n2);
                    }
                    assert(decl.take(i + 1)[i as int].name@ == nm);
                }
            }
            i += 1;
        }
        self.last_updated = now;
        proof {
            assert(decl.take(decl.len() as int) =~= decl);
            assert forall|n2: Seq<char>| !is_declared(decl, n2) implies !is_declared(
                decl.take(decl.len() as int),
                n2,
            ) by {}
        }
    }

    /// Move an enabled application to the disabled map and stamp the
    /// change; an unknown name changes nothing.
    pub fn disable_app(&mut self, name: &str, now: i64)
        ensures
            (match refs_lookup(old(self).enabled@, name@) {
                Some(app_ref) => {
                    &&& final(self).enabled@ == refs_remove(old(self).enabled@, name@)
                    &&& final(self).disabled@ == refs_remove(old(self).disabled@, name@).push(
                        ((final(self).disabled@.last().0, app_ref)),
                    )
                    &&& final(self).disabled@.last().0@ == name@
                    &&& final(self).deleted@ == old(self).deleted@
                    &&& final(self).last_updated == now
                },
                None => {
                    &&& final(self).enabled@ == refs_remove(old(self).enabled@, name@)
                    &&& final(self).disabled@ == old(self).disabled@
                    &&& final(self).deleted@ == old(self).deleted@
                    &&& final(self).last_updated == old(self).last_updated
                },
            }),
    {
        match remove_ref(&mut self.enabled, name) {
            Some(app_ref) => {
                insert_ref(&mut self.disabled, name.to_owned(), app_ref);
                self.last_updated = now;
            },
            None => {},
        }
    }

    /// Move an enabled or disabled application to the deleted map and stamp
    /// the change; an unknown name changes nothing.
    pub fn delete_app(&mut self, name: &str, now: i64)
        ensures
            (match refs_lookup(old(self).enabled@, name@) {
                Some(app_ref) => {
                    &&& final(self).enabled@ == refs_remove(old(self).enabled@, name@)
                    &&& final(self).disabled@ == old(self).disabled@
                    &&& final(self).deleted@ == refs_remove(old(self).deleted@, name@).push(
                        ((final(self).deleted@.last().0, app_ref)),
                    )
                    &&& final(self).deleted@.last().0@ == name@
                    &&& final(self).last_updated == now
                },
                None => (match refs_lookup(old(self).disabled@, name@) {
                    Some(app_ref) => {
                        &&& final(self).enabled@ == refs_remove(old(self).enabled@, name@)
                        &&& final(self).disabled@ == refs_remove(old(self).disabled@, name@)
                        &&& final(self).deleted@ == refs_remove(old(self).deleted@, name@).push(
                            ((final(self).deleted@.last().0, app_ref)),
                        )
                        &&& final(self).deleted@.last().0@ == name@
                        &&& final(self).last_updated == now
                    },
                    None => {
                        &&& final(self).enabled@ == refs_remove(old(self).enabled@, name@)
                        &&& final(self).disabled@ == refs_remove(old(self).disabled@, name@)
                        &&& final(self).deleted@ == old(self).deleted@
                        &&& final(self).last_updated == old(self).last_updated
                    },
                }),
            }),
    {
        let from_enabled = remove_ref(&mut self.enabled, name);
        let app_ref = match from_enabled {
            Some(r) => Some(r),
            None => remove_ref(&mut self.disabled, name),
        };
        match app_ref {
            Some(r) => {
                insert_ref(&mut self.deleted, name.to_owned(), r);
                self.last_updated = now;
            },
            None => {},
        }
    }
}


/// Look a name up in an association list, handing back a copy of the first
/// bound reference.
pub fn refs_lookup_first(m: &Vec<(String, AppReference)>, name: &str) -> (r: Option<AppReference>)
    ensures
        r == refs_lookup(m@, name@),
{
    proof {
        assert(m@.skip(0) =~= m@);
    }
    let mut i: usize = 0;
    while i < m.len()
        invariant
            i <= m@.len(),
            refs_lookup(m@, name@) == refs_lookup(m@.skip(i as int), name@),
        decreases m@.len() - i,
    {
        proof {
            assert(m@.skip(i as int)[0] == m@[i as int]);
            assert(m@.skip(i as int).drop_first() =~= m@.skip(i + 1));
        }
        if str_eq(m[i].0.as_str(), name) {
            return Some(m[i].1.dup());
        }
        i += 1;
    }
    proof {
        assert(m@.skip(i as int).len() == 0);
    }
    None
}

} // verus!
