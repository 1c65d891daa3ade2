//! The methods that the application can be asked for, described.
use vstd::prelude::*;
use vstd::string::StringExecFns;

verus! {

/// The name of the protocol.
pub const PROTOCOL: &'static str = "motiongfx";

/// The protocol version.
pub const PROTOCOL_VERSION: &'static str = "0.1.0";

/// The description of a method.
#[derive(Debug)]
pub struct MethodRow {
    pub name: String,
    pub params: String,
    pub gives: String,
    pub doc: String,
    /// Whether the method is one of the application.
    pub app_local: bool,
}

impl MethodRow {
    /// A copy of the description.
    pub fn copy(&self) -> (copy: Self)
        ensures
            copy == *self,
    {
        MethodRow {
            name: self.name.clone(),
            params: self.params.clone(),
            gives: self.gives.clone(),
            doc: self.doc.clone(),
            app_local: self.app_local,
        }
    }
}

/// The methods of the application.
#[derive(Debug)]
pub struct MotionGfxSchema {
    pub rows: Vec<MethodRow>,
}

impl Default for MotionGfxSchema {
    fn default() -> (schema: Self)
        ensures
            schema.rows@ == Seq::<MethodRow>::empty(),
    {
        let rows: Vec<MethodRow> = Vec::new();
        assert(rows@ =~= Seq::<MethodRow>::empty());
        MotionGfxSchema { rows }
    }
}

impl MotionGfxSchema {
    /// Describes a method of the application.
    pub fn describe_brp_method(&mut self, name: &str, params: &str, gives: &str, doc: &str)
        ensures
            final(self).rows@.len() == old(self).rows@.len() + 1,
            final(self).rows@.drop_last() == old(self).rows@,
            final(self).rows@.last().name@ == name@,
            final(self).rows@.last().params@ == params@,
            final(self).rows@.last().gives@ == gives@,
            final(self).rows@.last().doc@ == doc@,
            final(self).rows@.last().app_local,
    {
        let ghost before = self.rows@;
        self.rows.push(
            MethodRow {
                name: String::from_str(name),
                params: String::from_str(params),
                gives: String::from_str(gives),
                doc: String::from_str(doc),
                app_local: true,
            },
        );
        assert(self.rows@.drop_last() =~= before);
    }
}

/// A copy of descriptions behind others.
fn extend_rows(rows: &mut Vec<MethodRow>, more: &Vec<MethodRow>)
    ensures
        final(rows)@ == old(rows)@ + more@,
{
    let ghost before = rows@;
    let mut i: usize = 0;
    assert(before + more@.take(0) =~= before);
    while i < more.len()
        invariant
            i <= more@.len(),
            rows@ == before + more@.take(i as int),
        decreases more@.len() - i,
    {
        rows.push(more[i].copy());
        assert(before + more@.take(i + 1) =~= (before + more@.take(i as int)).push(
            more@[i as int],
        ));
        i += 1;
    }
    assert(more@.take(i as int) =~= more@);
}

/// All methods: those of the protocol, then those of the application.
pub fn schema(table: &Vec<MethodRow>, local: Option<&MotionGfxSchema>) -> (methods: Vec<MethodRow>)
    ensures
        methods@ == match local {
            Some(schema) => table@ + schema.rows@,
            None => table@,
        },
{
    let mut methods: Vec<MethodRow> = Vec::new();
    extend_rows(&mut methods, table);
    assert(methods@ =~= table@);
    match local {
        Some(schema) => {
            extend_rows(&mut methods, &schema.rows);
        },
        None => {},
    }
    methods
}

} // verus!
