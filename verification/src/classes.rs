use vstd::prelude::*;

use crate::associations::PendingAssociation;
use crate::registry::KeyRegistry;
use crate::url_hash::opt_str_view;

verus! {

/// A property of a class entry, as far as associations are concerned.
#[derive(Debug, Clone)]
pub struct ArgoProperty {
    /// The property has an `argoQuery` field.
    pub has_argo_query: bool,
    /// The string at `argoQuery.where.classId`, if there is one.
    pub where_class_id: Option<String>,
    /// The string at `title`, if there is one.
    pub title: Option<String>,
}

/// One entry of the classes file, as the scene reads it.
#[derive(Debug, Clone)]
pub struct ClassEntry {
    /// The string at `key`, if there is one.
    pub key: Option<String>,
    /// The entry has a `classId` field (it is an object, not a class).
    pub has_class_id: bool,
    /// The `superClassId` field: absent, or present with its string if it is one.
    pub super_class_id: Option<Option<String>>,
    /// The string at `title`, if there is one.
    pub title: Option<String>,
    /// The entry's properties, in the order of its `properties` object (empty
    /// when it has none).
    pub properties: Vec<ArgoProperty>,
}

/// The associations a class declares: for each property with an
/// `argoQuery` whose `where.classId` is a string, that class id and the
/// property's title (or `"unnamed"`).
pub open spec fn argo_titles_spec(props: Seq<ArgoProperty>) -> Seq<(Seq<char>, Seq<char>)>
    decreases props.len(),
{
    if props.len() == 0 {
        Seq::empty()
    } else {
        let rest = argo_titles_spec(props.drop_last());
        let p = props.last();
        if p.has_argo_query && p.where_class_id is Some {
            rest.push(
                (
                    p.where_class_id.unwrap()@,
                    match p.title {
                        Some(t) => t@,
                        None => "unnamed"@,
                    },
                ),
            )
        } else {
            rest
        }
    }
}

/// The title shown for a class or association without one.
pub fn unnamed() -> (s: String)
    ensures
        s@ == "unnamed"@,
{
    String::from_str("unnamed")
}

/// The `(class id, title)` pairs of the associations that the properties of
/// a class entry declare, in order.
pub fn get_argo_class_titles(entry: &ClassEntry) -> (out: Vec<(String, String)>)
    ensures
        out@.map_values(|p: (String, String)| (p.0@, p.1@)) == argo_titles_spec(entry.properties@),
{
    let props = &entry.properties;
    let mut out: Vec<(String, String)> = Vec::new();
    let mut k: usize = 0;
    assert(props@.subrange(0, 0) =~= Seq::<ArgoProperty>::empty());
    assert(out@.map_values(|p: (String, String)| (p.0@, p.1@)) =~= Seq::<(Seq<char>, Seq<char>)>::empty());
    while k < props.len()
        invariant
            k <= props.len(),
            out@.map_values(|p: (String, String)| (p.0@, p.1@)) == argo_titles_spec(
                props@.subrange(0, k as int),
            ),
        decreases props.len() - k,
    {
        let ghost next = props@.subrange(0, k + 1);
        assert(next.drop_last() =~= props@.subrange(0, k as int));
        let p = &props[k];
        if p.has_argo_query {
            match &p.where_class_id {
                Some(class_id) => {
                    let title = match &p.title {
                        Some(t) => t.clone(),
                        None => unnamed(),
                    };
                    let ghost before = out@.map_values(|p: (String, String)| (p.0@, p.1@));
                    let pair = (class_id.clone(), title);
                    out.push(pair);
                    assert(out@.map_values(|p: (String, String)| (p.0@, p.1@)) =~= before.push(
                        (pair.0@, pair.1@),
                    ));
                },
                None => {},
            }
        }
        k = k + 1;
    }
    assert(props@.subrange(0, props@.len() as int) =~= props@);
    out
}

/// Why a class entry cannot be drawn.
#[derive(Debug, Clone, Copy, PartialEq, Eq, Structural)]
pub enum ClassEntryError {
    /// The entry has no string `key`.
    MissingKey,
    /// The entry has a `classId`: it is an object, not a class.
    NotAClass,
    /// The entry's `superClassId` is not a string.
    SuperclassNotString,
}

/// What drawing one class entry involves.
#[derive(Debug, Clone)]
pub struct ClassPlan {
    /// The class's key, under which it is registered.
    pub key: String,
    /// The title shown on the class.
    pub title: String,
    /// The entity of the superclass, when the entry names one that is registered.
    pub superclass: Option<u64>,
    /// The height of the class relative to its superclass: 4 below it, or 0
    /// for a class without one.
    pub y_offset: i8,
    /// The associations the class declares, to be drawn once both ends exist.
    pub associations: Vec<PendingAssociation>,
}

/// The error, if any, that reading `entry` meets first: no key, then a
/// `classId`, then a `superClassId` that is not a string.
pub open spec fn class_entry_error(entry: ClassEntry) -> Option<ClassEntryError> {
    if entry.key is None {
        Some(ClassEntryError::MissingKey)
    } else if entry.has_class_id {
        Some(ClassEntryError::NotAClass)
    } else if entry.super_class_id == Some(None::<String>) {
        Some(ClassEntryError::SuperclassNotString)
    } else {
        None
    }
}

/// The superclass entity that `entry` resolves to in the registry `reg`.
pub open spec fn superclass_spec(reg: Map<Seq<char>, u64>, entry: ClassEntry) -> Option<u64> {
    match entry.super_class_id {
        Some(Some(k)) => if reg.dom().contains(k@) {
            Some(reg[k@])
        } else {
            None
        },
        _ => None,
    }
}

/// The pending associations made from `from_key` and the pairs `pairs`.
pub open spec fn pending_spec(from_key: Seq<char>, pairs: Seq<(Seq<char>, Seq<char>)>) -> Seq<
    (Seq<char>, Seq<char>, Seq<char>),
> {
    pairs.map_values(|p: (Seq<char>, Seq<char>)| (from_key, p.0, p.1))
}

/// The pending associations of a class pair up with the associations it
/// declares: as many, in the same order, the `k`-th carrying the class's key
/// and the `k`-th class id and title.
pub proof fn law_pending_follow_pairs(from_key: Seq<char>, pairs: Seq<(Seq<char>, Seq<char>)>)
    ensures
        pending_spec(from_key, pairs).len() == pairs.len(),
        forall|k: int|
            0 <= k < pairs.len() ==> #[trigger] pending_spec(from_key, pairs)[k] == (
                from_key,
                pairs[k].0,
                pairs[k].1,
            ),
{
}

/// The view of a pending association: declaring key, target class id, title.
pub open spec fn pending_view(p: PendingAssociation) -> (Seq<char>, Seq<char>, Seq<char>) {
    (p.from_key@, p.to_class_id@, p.title@)
}

/// Decides how to draw the class `entry`, looking its superclass up in
/// `registry` (a superclass that is not registered yet leaves the class at
/// the top of its own tree).
pub fn plan_class(registry: &KeyRegistry, entry: &ClassEntry) -> (res: Result<ClassPlan, ClassEntryError>)
    requires
        registry.0.wf(),
    ensures
        match class_entry_error(*entry) {
            Some(e) => res == Err::<ClassPlan, ClassEntryError>(e),
            None => res is Ok && {
                let plan = res->Ok_0;
                &&& plan.key@ == entry.key.unwrap()@
                &&& plan.title@ == (match entry.title {
                    Some(t) => t@,
                    None => "unnamed"@,
                })
                &&& plan.superclass == superclass_spec(registry.0@, *entry)
                &&& plan.y_offset == (if plan.superclass is Some {
                    -4i8
                } else {
                    0i8
                })
                &&& plan.associations@.map_values(|p: PendingAssociation| pending_view(p))
                    == pending_spec(entry.key.unwrap()@, argo_titles_spec(entry.properties@))
                &&& plan.associations@.len() == argo_titles_spec(entry.properties@).len()
                &&& forall|k: int|
                    0 <= k < plan.associations@.len() ==> #[trigger] pending_view(plan.associations@[k])
                        == (
                        entry.key.unwrap()@,
                        argo_titles_spec(entry.properties@)[k].0,
                        argo_titles_spec(entry.properties@)[k].1,
                    )
            },
        },
{
    let key = match &entry.key {
        Some(k) => k,
        None => {
            return Err(ClassEntryError::MissingKey);
        },
    };
    if entry.has_class_id {
        return Err(ClassEntryError::NotAClass);
    }
    let superclass = match &entry.super_class_id {
        None => None,
        Some(None) => {
            return Err(ClassEntryError::SuperclassNotString);
        },
        Some(Some(k)) => registry.0.get(k.as_str()),
    };
    let title = match &entry.title {
        Some(t) => t.clone(),
        None => unnamed(),
    };
    let pairs = get_argo_class_titles(entry);
    let ghost pv = pairs@.map_values(|p: (String, String)| (p.0@, p.1@));
    let mut associations: Vec<PendingAssociation> = Vec::new();
    let mut k: usize = 0;
    while k < pairs.len()
        invariant
            k <= pairs.len(),
            pv == pairs@.map_values(|p: (String, String)| (p.0@, p.1@)),
            associations@.map_values(|p: PendingAssociation| pending_view(p)) =~= pending_spec(
                key@,
                pv.subrange(0, k as int),
            ),
        decreases pairs.len() - k,
    {
        let ghost before = associations@.map_values(|p: PendingAssociation| pending_view(p));
        let a = PendingAssociation {
            from_key: key.clone(),
            to_class_id: pairs[k].0.clone(),
            title: pairs[k].1.clone(),
        };
        associations.push(a);
        assert(associations@.map_values(|p: PendingAssociation| pending_view(p)) =~= before.push(
            pending_view(a),
        ));
        assert(pv.subrange(0, k + 1) =~= pv.subrange(0, k as int).push(pv[k as int]));
        k = k + 1;
    }
    assert(pv.subrange(0, pv.len() as int) =~= pv);
    proof {
        law_pending_follow_pairs(key@, pv);
        let av = associations@.map_values(|p: PendingAssociation| pending_view(p));
        assert forall|k: int| 0 <= k < associations@.len() implies #[trigger] pending_view(
            associations@[k],
        ) == (key@, pv[k].0, pv[k].1) by {
            assert(av[k] == pending_view(associations@[k]));
        }
    }
    let y_offset: i8 = if superclass.is_some() {
        -4
    } else {
        0
    };
    Ok(ClassPlan { key: key.clone(), title, superclass, y_offset, associations })
}

/// The plugin that parses and draws the classes, lays them out and draws
/// their associations.
#[derive(Debug, Clone, Copy, PartialEq, Eq, Structural)]
pub struct ParseDrawPlugin;

impl ParseDrawPlugin {
    /// The gap between neighbouring subclasses in the layout.
    pub fn layout_spacing(&self) -> (s: u64)
        ensures
            s == 4,
    {
        4
    }

    /// The classes are parsed once the assets are loaded, and only until
    /// they have been parsed.
    pub fn should_parse_classes(&self, assets_loaded: bool, classes_parsed: bool) -> (b: bool)
        ensures
            b == (assets_loaded && !classes_parsed),
    {
        assets_loaded && !classes_parsed
    }
}

} // verus!
