//! The fields that can be edited from outside.
use crate::bevy_motiongfx::remote::fault::Fault;
use crate::name_table::{lists_table, names_of, NameTable};
use crate::pipeline::PipelineKey;
use crate::remote::RemoteFieldKey;
use crate::subject::UntypedField;
use crate::table::Table;
use crate::text::{replace_text, replaced, same_text, trim_start, trimmed};
use vstd::prelude::*;

verus! {

/// The names of a type and of a field.
pub type FieldName = (Seq<char>, Seq<char>);

/// What kind of subject a catalog entry animates.
#[derive(Debug, Clone, Copy, PartialEq, Eq, Structural)]
pub enum SubjectKind {
    /// A component on an entity.
    Component,
    /// An asset.
    Asset,
    /// A resource.
    Resource,
}

impl SubjectKind {
    /// The kind in a word.
    pub open spec fn spec_label(self) -> Seq<char> {
        match self {
            SubjectKind::Component => "component"@,
            SubjectKind::Asset => "asset"@,
            SubjectKind::Resource => "resource"@,
        }
    }

    /// The kind in a word.
    pub fn label(self) -> (label: &'static str)
        ensures
            label@ == self.spec_label(),
    {
        match self {
            SubjectKind::Component => "component",
            SubjectKind::Asset => "asset",
            SubjectKind::Resource => "resource",
        }
    }
}

/// One animatable field.
#[derive(Debug)]
pub struct CatalogEntry {
    /// The type path of what has the field.
    pub component: String,
    /// The reflection path of the field.
    pub field_name: String,
    /// The types identifying the pipeline.
    pub pipeline: PipelineKey,
    /// The field inside the component.
    pub field: UntypedField,
    /// The type path of the field's values.
    pub target_type_path: String,
    /// What kind of subject has the field.
    pub subject: SubjectKind,
}

impl CatalogEntry {
    /// What the edits of a timeline are addressed by.
    pub open spec fn spec_key(&self) -> RemoteFieldKey {
        RemoteFieldKey { pipeline: self.pipeline, field: self.field }
    }

    /// What the edits of a timeline are addressed by.
    #[verifier::when_used_as_spec(spec_key)]
    pub fn key(&self) -> (key: RemoteFieldKey)
        ensures
            key == self.spec_key(),
    {
        RemoteFieldKey::new(self.pipeline, self.field)
    }

    /// The names that the entry is found by.
    pub open spec fn names(self) -> FieldName {
        (self.component@, self.field_name@)
    }
}

/// Maps a type path and a reflection field path to the knowledge needed to
/// edit that field.
pub struct MotionGfxCatalog {
    entries: NameTable<CatalogEntry>,
    by_field: Table<UntypedField, (String, String)>,
}

/// The editable fields by name, and the names of each field.
#[verifier::ext_equal]
pub struct CatalogModel {
    pub entries: Map<FieldName, CatalogEntry>,
    pub by_field: Map<UntypedField, FieldName>,
}

impl CatalogModel {
    /// The entry of a field, if it can be edited.
    pub open spec fn entry_of(self, field: UntypedField) -> Option<CatalogEntry> {
        if self.by_field.contains_key(field) && self.entries.contains_key(self.by_field[field]) {
            Some(self.entries[self.by_field[field]])
        } else {
            None
        }
    }

    /// The entry of a name, if it can be edited.
    pub open spec fn entry(self, component: Seq<char>, field: Seq<char>) -> Option<CatalogEntry> {
        if self.entries.contains_key((component, field)) {
            Some(self.entries[(component, field)])
        } else {
            None
        }
    }

    /// Whether the name is that of a resource's field.
    pub open spec fn is_resource(self, component: Seq<char>, field: Seq<char>) -> bool {
        self.entry(component, field) matches Some(entry) && entry.subject == SubjectKind::Resource
    }
}

impl View for MotionGfxCatalog {
    type V = CatalogModel;

    closed spec fn view(&self) -> CatalogModel {
        CatalogModel {
            entries: self.entries@,
            by_field: self.by_field@.map_values(|names: (String, String)| (names.0@, names.1@)),
        }
    }
}

/// The reflection path of a field path: without the colons in front, and with
/// a dot for every other pair of colons.
pub open spec fn reflect_path(path: Seq<char>) -> Seq<char> {
    replaced(trimmed(path, "::"@), "::"@, "."@)
}

/// Convert a field path like `::translation::x` into a reflection path
/// `translation.x`.
pub fn motiongfx_path_to_reflect(path: &str) -> (reflect: String)
    ensures
        reflect@ == reflect_path(path@),
{
    proof {
        reveal_strlit("::");
    }
    replace_text(trim_start(path, "::"), "::", ".")
}

impl Default for MotionGfxCatalog {
    fn default() -> (catalog: Self)
        ensures
            catalog@ == (CatalogModel { entries: Map::empty(), by_field: Map::empty() }),
    {
        let catalog = MotionGfxCatalog { entries: NameTable::new(), by_field: Table::new() };
        assert(catalog@ =~= (CatalogModel { entries: Map::empty(), by_field: Map::empty() }));
        catalog
    }
}

impl MotionGfxCatalog {
    /// Every entry stands under its own names.
    #[verifier::type_invariant]
    spec fn named(self) -> bool {
        forall|name: FieldName| #[trigger]
            self.entries@.contains_key(name) ==> self.entries@[name].names() == name
    }

    /// Record a catalog entry for the field of a component.
    pub fn insert(
        &mut self,
        component: String,
        field_path: &str,
        target_type_path: String,
        pipeline: PipelineKey,
        field: UntypedField,
    )
        ensures
            is_recorded(
                old(self)@,
                final(self)@,
                component@,
                field_path@,
                target_type_path,
                pipeline,
                field,
                SubjectKind::Component,
            ),
    {
        self.insert_with_subject(
            component,
            field_path,
            target_type_path,
            pipeline,
            field,
            SubjectKind::Component,
        );
    }

    /// Record a catalog entry for a field with an explicit [`SubjectKind`].
    pub fn insert_with_subject(
        &mut self,
        component: String,
        field_path: &str,
        target_type_path: String,
        pipeline: PipelineKey,
        field: UntypedField,
        subject: SubjectKind,
    )
        ensures
            is_recorded(
                old(self)@,
                final(self)@,
                component@,
                field_path@,
                target_type_path,
                pipeline,
                field,
                subject,
            ),
    {
        let field_name = motiongfx_path_to_reflect(field_path);
        let mut taken = MotionGfxCatalog::default();
        core::mem::swap(self, &mut taken);
        proof {
            use_type_invariant(&taken);
        }
        let ghost before = taken;
        let MotionGfxCatalog { mut entries, mut by_field } = taken;
        by_field.insert(field, (component.clone(), field_name.clone()));
        let entry = CatalogEntry {
            component: component.clone(),
            field_name: field_name.clone(),
            pipeline,
            field,
            target_type_path,
            subject,
        };
        let ghost name = entry.names();
        entries.insert(component, field_name, entry);
        *self = MotionGfxCatalog { entries, by_field };
        proof {
            assert(self@.entries =~= before@.entries.insert(name, entry));
            assert(self@.by_field =~= before@.by_field.insert(field, name));
        }
    }

    /// Look up the entry for a type path and a reflection field path.
    pub fn get(&self, component: &str, field: &str) -> (entry: Option<&CatalogEntry>)
        ensures
            entry is Some <==> self@.entry(component@, field@) is Some,
            entry is Some ==> Some(*entry->0) == self@.entry(component@, field@),
            entry is Some ==> entry->0.names() == (component@, field@),
    {
        proof {
            use_type_invariant(self);
        }
        self.entries.get(component, field)
    }

    /// The names of a field.
    pub fn field_names(&self, field: &UntypedField) -> (names: Option<&(String, String)>)
        ensures
            names is Some <==> self@.by_field.contains_key(*field),
            names matches Some(found) ==> (found.0@, found.1@) == self@.by_field[*field],
    {
        self.by_field.get(field)
    }

    /// Look up an entry directly from a field.
    pub fn get_by_field(&self, field: &UntypedField) -> (entry: Option<&CatalogEntry>)
        ensures
            entry is Some <==> self@.entry_of(*field) is Some,
            entry is Some ==> Some(*entry->0) == self@.entry_of(*field),
            entry is Some ==> entry->0.names() == self@.by_field[*field],
    {
        match self.by_field.get(field) {
            Some(names) => self.get(names.0.as_str(), names.1.as_str()),
            None => None,
        }
    }

    /// Whether the name is that of a resource's field.
    pub fn is_resource_field(&self, component: &str, field: &str) -> (is_resource: bool)
        ensures
            is_resource == self@.is_resource(component@, field@),
    {
        match self.get(component, field) {
            Some(entry) => entry.subject == SubjectKind::Resource,
            None => false,
        }
    }

    /// Every entry with its names, once.
    pub fn iter(&self) -> (entries: &Vec<((String, String), CatalogEntry)>)
        ensures
            lists_table(self@.entries, entries@),
            forall|i: int|
                0 <= i < entries@.len() ==> (#[trigger] entries@[i]).1.names() == names_of(
                    entries@[i],
                ),
    {
        proof {
            use_type_invariant(self);
        }
        self.entries.entries()
    }
}

/// Whether a field can now be edited, under the type path and the reflection
/// path of its field path.
pub open spec fn is_recorded(
    before: CatalogModel,
    after: CatalogModel,
    component: Seq<char>,
    field_path: Seq<char>,
    target_type_path: String,
    pipeline: PipelineKey,
    field: UntypedField,
    subject: SubjectKind,
) -> bool {
    let name = (component, reflect_path(field_path));
    let entry = after.entries[name];
    &&& after == (CatalogModel {
        entries: before.entries.insert(name, entry),
        by_field: before.by_field.insert(field, name),
    })
    &&& entry.names() == name
    &&& entry.pipeline == pipeline
    &&& entry.field == field
    &&& entry.target_type_path == target_type_path
    &&& entry.subject == subject
}

/// An editable field as it is listed.
#[derive(Debug)]
pub struct AnimatableField {
    pub component: String,
    pub field: String,
    pub target_type: String,
    pub subject: &'static str,
}

/// Whether a field is listed as an entry describes it.
pub open spec fn is_listed(entry: CatalogEntry, listed: AnimatableField) -> bool {
    &&& listed.component == entry.component
    &&& listed.field == entry.field_name
    &&& listed.target_type == entry.target_type_path
    &&& listed.subject@ == entry.subject.spec_label()
}

/// The entries that pass a filter.
pub open spec fn passing(
    entries: Seq<((String, String), CatalogEntry)>,
    filter: Option<Seq<char>>,
) -> Seq<((String, String), CatalogEntry)> {
    entries.filter(
        |entry: ((String, String), CatalogEntry)|
            filter matches Some(component) ==> entry.1.component@ == component,
    )
}

/// Whether the fields are those of a listing of the catalog that pass a
/// filter.
pub open spec fn is_listing(
    catalog: CatalogModel,
    filter: Option<Seq<char>>,
    fields: Seq<AnimatableField>,
) -> bool {
    exists|entries: Seq<((String, String), CatalogEntry)>|
        {
            &&& #[trigger] lists_table(catalog.entries, entries)
            &&& fields.len() == passing(entries, filter).len()
            &&& forall|i: int|
                0 <= i < fields.len() ==> is_listed(
                    passing(entries, filter)[i].1,
                    #[trigger] fields[i],
                )
        }
}

/// What a filter asks for.
pub open spec fn filter_text(filter: Option<String>) -> Option<Seq<char>> {
    match filter {
        Some(component) => Some(component@),
        None => None,
    }
}

/// List editable fields, of one component or of all.
pub fn animatable_fields(catalog: Option<&MotionGfxCatalog>, filter: &Option<String>) -> (result:
    Result<Vec<AnimatableField>, Fault>)
    ensures
        match catalog {
            None => result == Err::<Vec<AnimatableField>, Fault>(Fault::NoCatalogPlugin),
            Some(catalog) => result matches Ok(fields) && is_listing(
                catalog@,
                filter_text(*filter),
                fields@,
            ),
        },
{
    let catalog = match catalog {
        Some(catalog) => catalog,
        None => {
            return Err(Fault::NoCatalogPlugin);
        },
    };
    let entries = catalog.iter();
    let ghost wanted = filter_text(*filter);
    let ghost all = entries@;
    let mut fields: Vec<AnimatableField> = Vec::new();
    let mut i: usize = 0;
    proof {
        reveal(Seq::filter);
    }
    while i < entries.len()
        invariant
            i <= entries@.len(),
            all == entries@,
            wanted == filter_text(*filter),
            fields@.len() == passing(all.take(i as int), wanted).len(),
            forall|j: int|
                0 <= j < fields@.len() ==> is_listed(
                    passing(all.take(i as int), wanted)[j].1,
                    #[trigger] fields@[j],
                ),
        decreases entries@.len() - i,
    {
        proof {
            crate::seqs::take_one_more(all, i as int);
            reveal(Seq::filter);
        }
        let entry = &entries[i].1;
        let passes = match filter {
            Some(component) => same_text(component.as_str(), entry.component.as_str()),
            None => true,
        };
        if passes {
            fields.push(
                AnimatableField {
                    component: entry.component.clone(),
                    field: entry.field_name.clone(),
                    target_type: entry.target_type_path.clone(),
                    subject: entry.subject.label(),
                },
            );
        }
        i += 1;
    }
    assert(all.take(i as int) =~= all);
    Ok(fields)
}

} // verus!
