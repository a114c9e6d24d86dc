//! Request bodies of the Iceberg catalog benchmarks: table schemas, table and
//! view properties and view versions.
use vstd::prelude::*;
use crate::num::{dec_str, fmt_usize};
use crate::text::{clone_strings, concat2, concat3, join_spec, join_strings, owned, views};

verus! {

/// Property names and values; each name occurs once.
pub type Properties = Vec<(String, String)>;

/// A simplified Iceberg schema.
#[derive(Debug, Clone)]
pub struct Schema {
    pub schema_id: i32,
    pub schema_type: String,
    pub fields: Vec<Field>,
}

/// The schema type a schema has unless it says otherwise.
pub fn default_schema_type() -> (r: String)
    ensures
        r@ == "struct"@,
{
    owned("struct")
}

/// One column of a schema.
#[derive(Debug, Clone)]
pub struct Field {
    pub id: i32,
    pub name: String,
    pub field_type: String,
    pub required: bool,
    pub doc: Option<String>,
}

/// The type of the `idx`-th generated column: the five types in turn.
pub open spec fn column_type_spec(idx: nat) -> Seq<char> {
    if idx % 5 == 0 {
        "long"@
    } else if idx % 5 == 1 {
        "string"@
    } else if idx % 5 == 2 {
        "double"@
    } else if idx % 5 == 3 {
        "timestamp"@
    } else {
        "boolean"@
    }
}

/// The type of the `idx`-th generated column.
pub fn column_type(idx: usize) -> (r: String)
    ensures
        r@ == column_type_spec(idx as nat),
{
    let m = idx % 5;
    if m == 0 {
        owned("long")
    } else if m == 1 {
        owned("string")
    } else if m == 2 {
        owned("double")
    } else if m == 3 {
        owned("timestamp")
    } else {
        owned("boolean")
    }
}

/// The `i`-th column of a generated schema is `col_<i>` with id `i + 1`,
/// optional and undocumented.
pub open spec fn field_ok(f: Field, i: nat) -> bool {
    &&& f.id == (i + 1) as i32
    &&& f.name@ == "col_"@ + dec_str(i)
    &&& f.field_type@ == column_type_spec(i)
    &&& !f.required
    &&& f.doc is None
}

/// A schema of `columns` generated columns.
pub fn build_iceberg_schema(columns: usize) -> (r: Schema)
    ensures
        r.schema_id == 0,
        r.schema_type@ == "struct"@,
        r.fields@.len() == columns,
        forall|i: int| 0 <= i < columns ==> field_ok(#[trigger] r.fields@[i], i as nat),
{
    let mut fields: Vec<Field> = Vec::new();
    let mut i: usize = 0;
    while i < columns
        invariant
            i <= columns,
            fields@.len() == i,
            forall|k: int| 0 <= k < i ==> field_ok(#[trigger] fields@[k], k as nat),
        decreases columns - i,
    {
        let n = fmt_usize(i);
        let f = Field {
            id: (i + 1) as i32,
            name: concat2("col_", n.as_str()),
            field_type: column_type(i),
            required: false,
            doc: None,
        };
        fields.push(f);
        i = i + 1;
    }
    Schema { schema_id: 0, schema_type: default_schema_type(), fields }
}

/// The views of a property list.
pub open spec fn prop_views(p: Seq<(String, String)>) -> Seq<(Seq<char>, Seq<char>)> {
    p.map_values(|kv: (String, String)| (kv.0@, kv.1@))
}

/// `format-version = 2`, then `<prefix>_<i> = val_<i>` for `i < count`.
pub open spec fn properties_spec(count: nat, prefix: Seq<char>) -> Seq<(Seq<char>, Seq<char>)> {
    seq![("format-version"@, "2"@)] + Seq::new(
        count,
        |i: int| (prefix + "_"@ + dec_str(i as nat), "val_"@ + dec_str(i as nat)),
    )
}

/// No key occurs twice in a property list.
pub open spec fn keys_distinct(p: Seq<(Seq<char>, Seq<char>)>) -> bool {
    forall|i: int, j: int| 0 <= i < j < p.len() ==> p[i].0 != p[j].0
}

/// The generated properties never repeat a key.
pub proof fn lemma_properties_keys_distinct(count: nat, prefix: Seq<char>)
    ensures
        keys_distinct(properties_spec(count, prefix)),
{
    let p = properties_spec(count, prefix);
    reveal_strlit("format-version");
    reveal_strlit("_");
    assert forall|i: int, j: int| 0 <= i < j < p.len() implies p[i].0 != p[j].0 by {
        let kj = p[j].0;
        assert(kj == prefix + "_"@ + dec_str((j - 1) as nat));
        assert(kj[prefix.len() as int] == '_');
        if i == 0 {
            assert(p[0].0 == "format-version"@);
            if prefix.len() < 14 {
                assert("format-version"@[prefix.len() as int] != '_');
            }
        } else {
            let ki = p[i].0;
            assert(ki == prefix + "_"@ + dec_str((i - 1) as nat));
            crate::num::lemma_dec_str_injective((i - 1) as nat, (j - 1) as nat);
            if ki == kj {
                assert(ki.subrange(prefix.len() as int + 1, ki.len() as int) =~= dec_str((i - 1) as nat));
                assert(kj.subrange(prefix.len() as int + 1, kj.len() as int) =~= dec_str((j - 1) as nat));
            }
        }
    }
}

/// The properties of generated tables and views.
pub fn build_properties(count: usize, prefix: &str) -> (r: Properties)
    ensures
        prop_views(r@) == properties_spec(count as nat, prefix@),
        keys_distinct(prop_views(r@)),
{
    proof {
        lemma_properties_keys_distinct(count as nat, prefix@);
    }
    let mut props: Properties = Vec::new();
    props.push((owned("format-version"), owned("2")));
    let ghost all = properties_spec(count as nat, prefix@);
    assert(prop_views(props@) =~= all.subrange(0, 1));
    let mut i: usize = 0;
    while i < count
        invariant
            i <= count,
            all == properties_spec(count as nat, prefix@),
            prop_views(props@) == all.subrange(0, i + 1),
        decreases count - i,
    {
        let n = fmt_usize(i);
        let k = concat3(prefix, "_", n.as_str());
        let v = concat2("val_", n.as_str());
        let ghost old_p = props@;
        props.push((k, v));
        proof {
            assert(prop_views(props@) =~= prop_views(old_p).push((k@, v@)));
            assert(all[i + 1] == (k@, v@));
            assert(all.subrange(0, i + 2) =~= all.subrange(0, i + 1).push((k@, v@)));
        }
        i = i + 1;
    }
    assert(all.subrange(0, count + 1) =~= all);
    props
}

/// A view version of a generated view.
#[derive(Debug, Clone)]
pub struct ViewVersion {
    pub version_id: i32,
    pub schema_id: i32,
    pub default_namespace: Vec<String>,
    pub representations: Vec<ViewRepresentation>,
}

/// The SQL text of a view.
#[derive(Debug, Clone)]
pub struct ViewRepresentation {
    pub rep_type: String,
    pub sql: String,
    pub dialect: String,
}

/// The query of generated view `view_name` in `namespace`.
pub open spec fn view_sql(namespace: Seq<Seq<char>>, view_name: Seq<char>) -> Seq<char> {
    "SELECT * FROM "@ + join_spec(namespace, "."@) + "."@ + view_name + " WHERE col_0 > 0"@
}

/// Version 1 of a generated view: one Spark SQL representation.
pub fn build_iceberg_view_version(namespace: &[String], view_name: &str) -> (r: ViewVersion)
    ensures
        r.version_id == 1,
        r.schema_id == 0,
        views(r.default_namespace@) == views(namespace@),
        r.representations@.len() == 1,
        r.representations@[0].rep_type@ == "sql"@,
        r.representations@[0].sql@ == view_sql(views(namespace@), view_name@),
        r.representations@[0].dialect@ == "spark"@,
{
    let ns_path = join_strings(namespace, ".");
    let a = concat3("SELECT * FROM ", ns_path.as_str(), ".");
    let b = concat3(a.as_str(), view_name, " WHERE col_0 > 0");
    let rep = ViewRepresentation { rep_type: owned("sql"), sql: b, dialect: owned("spark") };
    let mut reps: Vec<ViewRepresentation> = Vec::new();
    reps.push(rep);
    ViewVersion {
        version_id: 1,
        schema_id: 0,
        default_namespace: clone_strings(namespace),
        representations: reps,
    }
}

/// Body of a create-table request.
#[derive(Debug, Clone)]
pub struct CreateTableRequest {
    pub name: String,
    pub schema: Schema,
    pub location: String,
    pub properties: Properties,
}

/// Body of a create-view request.
#[derive(Debug, Clone)]
pub struct CreateViewRequest {
    pub name: String,
    pub location: String,
    pub schema: Schema,
    pub view_version: ViewVersion,
    pub properties: Properties,
}

/// Body of a create-namespace request.
#[derive(Debug, Clone)]
pub struct CreateNamespaceRequest {
    pub namespace: Vec<String>,
    pub properties: Properties,
}

/// Body of an update-namespace-properties request.
#[derive(Debug, Clone)]
pub struct UpdateNamespaceRequest {
    pub removals: Vec<String>,
    pub updates: Properties,
}

} // verus!
