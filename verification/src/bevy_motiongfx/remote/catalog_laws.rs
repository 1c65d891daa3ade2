//! What the catalog knows and lists.
use crate::bevy_motiongfx::remote::catalog::{
    is_listed, is_listing, is_recorded, passing, AnimatableField, CatalogEntry, CatalogModel,
    FieldName, SubjectKind,
};
use crate::name_table::{lists_table, names_of};
use crate::pipeline::PipelineKey;
use crate::subject::UntypedField;
use vstd::prelude::*;

verus! {

/// A field that was recorded is found by its names and by itself, with what was recorded, and
/// others are found as before.
pub proof fn recorded_fields_are_found(
    before: CatalogModel,
    after: CatalogModel,
    component: Seq<char>,
    field_path: Seq<char>,
    target_type_path: String,
    pipeline: PipelineKey,
    field: UntypedField,
    subject: SubjectKind,
    other: UntypedField,
)
    requires
        is_recorded(
            before,
            after,
            component,
            field_path,
            target_type_path,
            pipeline,
            field,
            subject,
        ),
    ensures
        after.entry_of(field) is Some,
        ({
            let entry = after.entry_of(field)->0;
            &&& entry.component@ == component
            &&& entry.pipeline == pipeline
            &&& entry.field == field
            &&& entry.target_type_path == target_type_path
            &&& entry.subject == subject
            &&& after.entry(component, entry.field_name@) == Some(entry)
            &&& after.is_resource(component, entry.field_name@) <==> subject
                == SubjectKind::Resource
        }),
        other != field ==> after.by_field.contains_key(other) == before.by_field.contains_key(other)
            && after.by_field[other] == before.by_field[other],
{
}

/// Every field that can be edited and is asked for is listed, and no other one is: of one
/// component, or of all where none is named.
pub proof fn fields_are_listed_if_asked_for(
    catalog: CatalogModel,
    filter: Option<Seq<char>>,
    fields: Seq<AnimatableField>,
    name: FieldName,
)
    requires
        is_listing(catalog, filter, fields),
    ensures
        catalog.entries.contains_key(name) && (filter is Some ==> catalog.entries[name].component@
            == filter->0) ==> exists|i: int|
            0 <= i < fields.len() && lists_entry(catalog.entries[name], #[trigger] fields[i]),
        forall|i: int|
            0 <= i < fields.len() ==> (filter is Some ==> (#[trigger] fields[i]).component@
                == filter->0),
{
    let entries = choose|entries: Seq<((String, String), CatalogEntry)>|
        {
            &&& #[trigger] lists_table(catalog.entries, entries)
            &&& fields.len() == passing(entries, filter).len()
            &&& forall|i: int|
                0 <= i < fields.len() ==> is_listed(
                    passing(entries, filter)[i].1,
                    #[trigger] fields[i],
                )
        };
    let keep = |entry: ((String, String), CatalogEntry)|
        filter matches Some(component) ==> entry.1.component@ == component;
    let passed = passing(entries, filter);
    entries.filter_lemma(keep);
    assert(passed =~= entries.filter(keep));
    assert forall|i: int| 0 <= i < fields.len() implies (filter is Some ==> (
    #[trigger] fields[i]).component@ == filter->0) by {
        assert(is_listed(passed[i].1, fields[i]));
        assert(keep(passed[i]));
    }
    if catalog.entries.contains_key(name) && (filter is Some ==> catalog.entries[name].component@
        == filter->0) {
        let k = choose|k: int| 0 <= k < entries.len() && names_of(#[trigger] entries[k]) == name;
        assert(entries[k].1 == catalog.entries[name]);
        assert(keep(entries[k]));
        assert(passed.contains(entries[k]));
        let i = choose|i: int| 0 <= i < passed.len() && passed[i] == entries[k];
        assert(is_listed(passed[i].1, fields[i]));
        assert(lists_entry(catalog.entries[name], fields[i]));
    }
}

/// Whether a field is listed with its names, the type of its values and what has it.
pub open spec fn lists_entry(entry: CatalogEntry, listed: AnimatableField) -> bool {
    &&& listed.component@ == entry.component@
    &&& listed.field@ == entry.field_name@
    &&& listed.target_type@ == entry.target_type_path@
    &&& entry.subject is Component ==> listed.subject@ == "component"@
    &&& entry.subject is Asset ==> listed.subject@ == "asset"@
    &&& entry.subject is Resource ==> listed.subject@ == "resource"@
}

} // verus!
