use vstd::prelude::*;
use crate::error::CascadeError;

verus! {

/// The lowercase hex SHA-256 digest of the UTF-8 encoding of a string.
pub uninterp spec fn sha256_hex_of(s: Seq<char>) -> Seq<char>;

/// A lowercase hexadecimal digit.
pub open spec fn is_lower_hex(c: char) -> bool {
    ('0' <= c && c <= '9') || ('a' <= c && c <= 'f')
}

/// 64 lowercase hexadecimal digits: the written form of a SHA-256 digest.
pub open spec fn is_hex_digest(s: Seq<char>) -> bool {
    s.len() == 64 && forall|i: int| 0 <= i < s.len() ==> #[trigger] is_lower_hex(s[i])
}

/// Relies on sha2::Sha256::digest and its `LowerHex` output: the digest of the
/// string's bytes, written as lowercase hex, two digits for each of its 32 bytes.
#[verifier::external_body]
fn sha256_hex(s: &str) -> (r: String)
    ensures
        r@ == sha256_hex_of(s@),
        is_hex_digest(r@),
{
    format!("{:x}", <sha2::Sha256 as sha2::Digest>::digest(s.as_bytes()))
}

/// One column of a table: its name and declared type.
pub struct ColumnInfo {
    pub name: String,
    pub declared_type: String,
}

/// One table: its name and its columns in declared order.
pub struct TableSchema {
    pub name: String,
    pub columns: Vec<ColumnInfo>,
}

impl View for ColumnInfo {
    type V = (Seq<char>, Seq<char>);

    open spec fn view(&self) -> (Seq<char>, Seq<char>) {
        (self.name@, self.declared_type@)
    }
}

impl View for TableSchema {
    type V = (Seq<char>, Seq<(Seq<char>, Seq<char>)>);

    open spec fn view(&self) -> (Seq<char>, Seq<(Seq<char>, Seq<char>)>) {
        (self.name@, self.columns@.map_values(|c: ColumnInfo| c@))
    }
}

/// All pieces written one after another.
pub open spec fn concat_all(pieces: Seq<Seq<char>>) -> Seq<char>
    decreases pieces.len(),
{
    if pieces.len() == 0 {
        Seq::empty()
    } else {
        concat_all(pieces.drop_last()) + pieces.last()
    }
}

pub open spec fn column_digest(col: (Seq<char>, Seq<char>)) -> Seq<char> {
    sha256_hex_of(col.0 + seq![':'] + col.1)
}

pub open spec fn table_digest(table: (Seq<char>, Seq<(Seq<char>, Seq<char>)>)) -> Seq<char> {
    sha256_hex_of(table.0 + concat_all(table.1.map_values(|c: (Seq<char>, Seq<char>)| column_digest(c))))
}

/// The fingerprint of a schema given as its tables in order.
pub open spec fn schema_fingerprint(tables: Seq<(Seq<char>, Seq<(Seq<char>, Seq<char>)>)>) -> Seq<char> {
    sha256_hex_of(concat_all(tables.map_values(|t: (Seq<char>, Seq<(Seq<char>, Seq<char>)>)| table_digest(t))))
}

pub open spec fn schema_view(tables: Seq<TableSchema>) -> Seq<(Seq<char>, Seq<(Seq<char>, Seq<char>)>)> {
    tables.map_values(|t: TableSchema| t@)
}

/// The fingerprint is a function of the schema alone: two fetches of an
/// unchanged schema give the same digest.
pub proof fn lemma_fingerprint_deterministic(a: Seq<TableSchema>, b: Seq<TableSchema>)
    requires
        schema_view(a) == schema_view(b),
    ensures
        schema_fingerprint(schema_view(a)) == schema_fingerprint(schema_view(b)),
{
}

/// `x` and `y`, when they differ, have different digests.
pub open spec fn digests_apart(x: Seq<char>, y: Seq<char>) -> bool {
    x != y ==> sha256_hex_of(x) != sha256_hex_of(y)
}

/// `tables` with column `c` of table `t` replaced by `col`.
pub open spec fn replace_column(
    tables: Seq<(Seq<char>, Seq<(Seq<char>, Seq<char>)>)>,
    t: int,
    c: int,
    col: (Seq<char>, Seq<char>),
) -> Seq<(Seq<char>, Seq<(Seq<char>, Seq<char>)>)> {
    tables.update(t, (tables[t].0, tables[t].1.update(c, col)))
}

/// The three pairs of inputs that replacing a column changes get distinct
/// digests, and every digest has 64 digits.
pub open spec fn replacement_digests_apart(
    tables: Seq<(Seq<char>, Seq<(Seq<char>, Seq<char>)>)>,
    t: int,
    c: int,
    col: (Seq<char>, Seq<char>),
) -> bool {
    let other = replace_column(tables, t, c, col);
    &&& forall|x: Seq<char>| #[trigger] sha256_hex_of(x).len() == 64
    &&& digests_apart(
        tables[t].1[c].0 + seq![':'] + tables[t].1[c].1,
        col.0 + seq![':'] + col.1,
    )
    &&& digests_apart(
        tables[t].0 + concat_all(tables[t].1.map_values(|x: (Seq<char>, Seq<char>)| column_digest(x))),
        other[t].0 + concat_all(other[t].1.map_values(|x: (Seq<char>, Seq<char>)| column_digest(x))),
    )
    &&& digests_apart(
        concat_all(tables.map_values(|x: (Seq<char>, Seq<(Seq<char>, Seq<char>)>)| table_digest(x))),
        concat_all(other.map_values(|x: (Seq<char>, Seq<(Seq<char>, Seq<char>)>)| table_digest(x))),
    )
}

proof fn lemma_concat_len(p: Seq<Seq<char>>)
    requires
        forall|i: int| 0 <= i < p.len() ==> #[trigger] p[i].len() == 64,
    ensures
        concat_all(p).len() == 64 * p.len(),
    decreases p.len(),
{
    if p.len() > 0 {
        lemma_concat_len(p.drop_last());
    }
}

proof fn lemma_concat_fixed_width_injective(p: Seq<Seq<char>>, q: Seq<Seq<char>>)
    requires
        p.len() == q.len(),
        forall|i: int| 0 <= i < p.len() ==> #[trigger] p[i].len() == 64,
        forall|i: int| 0 <= i < q.len() ==> #[trigger] q[i].len() == 64,
        concat_all(p) == concat_all(q),
    ensures
        p == q,
    decreases p.len(),
{
    if p.len() > 0 {
        let pp = p.drop_last();
        let qq = q.drop_last();
        lemma_concat_len(pp);
        lemma_concat_len(qq);
        let whole = concat_all(p);
        let k = concat_all(pp).len() as int;
        assert(concat_all(pp) =~= whole.subrange(0, k));
        assert(concat_all(qq) =~= whole.subrange(0, k));
        assert(p.last() =~= whole.subrange(k, whole.len() as int));
        assert(q.last() =~= whole.subrange(k, whole.len() as int));
        lemma_concat_fixed_width_injective(pp, qq);
        assert(p =~= pp.push(p.last()));
        assert(q =~= qq.push(q.last()));
    }
}

proof fn lemma_column_change_propagates(
    tables: Seq<(Seq<char>, Seq<(Seq<char>, Seq<char>)>)>,
    t: int,
    c: int,
    col: (Seq<char>, Seq<char>),
)
    requires
        0 <= t < tables.len(),
        0 <= c < tables[t].1.len(),
        tables[t].1[c].0 + seq![':'] + tables[t].1[c].1 != col.0 + seq![':'] + col.1,
        replacement_digests_apart(tables, t, c, col),
    ensures
        schema_fingerprint(tables) != schema_fingerprint(replace_column(tables, t, c, col)),
{
    let other = replace_column(tables, t, c, col);
    let cda = tables[t].1.map_values(|x: (Seq<char>, Seq<char>)| column_digest(x));
    let cdb = other[t].1.map_values(|x: (Seq<char>, Seq<char>)| column_digest(x));
    assert(other[t].1[c] == col);
    assert(cda[c] != cdb[c]);
    if concat_all(cda) == concat_all(cdb) {
        lemma_concat_fixed_width_injective(cda, cdb);
    }
    let tin_a = tables[t].0 + concat_all(cda);
    let tin_b = tables[t].0 + concat_all(cdb);
    if tin_a == tin_b {
        let k = tables[t].0.len() as int;
        assert(concat_all(cda) =~= tin_a.subrange(k, tin_a.len() as int));
        assert(concat_all(cdb) =~= tin_b.subrange(k, tin_b.len() as int));
    }
    let tda = tables.map_values(|x: (Seq<char>, Seq<(Seq<char>, Seq<char>)>)| table_digest(x));
    let tdb = other.map_values(|x: (Seq<char>, Seq<(Seq<char>, Seq<char>)>)| table_digest(x));
    assert(other[t].0 == tables[t].0);
    assert(tda[t] != tdb[t]);
    if concat_all(tda) == concat_all(tdb) {
        lemma_concat_fixed_width_injective(tda, tdb);
    }
}

/// Renaming one column, with its type and position kept, changes the
/// fingerprint, given 64-digit digests that do not collide on the inputs the
/// renaming changes.
pub proof fn lemma_column_rename_changes_fingerprint(
    tables: Seq<(Seq<char>, Seq<(Seq<char>, Seq<char>)>)>,
    t: int,
    c: int,
    name: Seq<char>,
)
    requires
        0 <= t < tables.len(),
        0 <= c < tables[t].1.len(),
        name != tables[t].1[c].0,
        replacement_digests_apart(tables, t, c, (name, tables[t].1[c].1)),
    ensures
        schema_fingerprint(tables) != schema_fingerprint(
            replace_column(tables, t, c, (name, tables[t].1[c].1)),
        ),
{
    let col = tables[t].1[c];
    let in_a = col.0 + seq![':'] + col.1;
    let in_b = name + seq![':'] + col.1;
    if in_a == in_b {
        if col.0.len() < name.len() {
            assert(in_a[col.0.len() as int] == ':');
            assert(in_b[col.0.len() as int] == name[col.0.len() as int]);
        }
        if col.0.len() > name.len() {
            assert(in_b[name.len() as int] == ':');
            assert(in_a[name.len() as int] == col.0[name.len() as int]);
        }
        assert(col.0 =~= in_a.subrange(0, col.0.len() as int));
        assert(name =~= in_b.subrange(0, name.len() as int));
    }
    lemma_column_change_propagates(tables, t, c, (name, col.1));
}

/// Changing the declared type of one column changes the fingerprint, given
/// 64-digit digests that do not collide on the inputs the change affects.
pub proof fn lemma_column_retype_changes_fingerprint(
    tables: Seq<(Seq<char>, Seq<(Seq<char>, Seq<char>)>)>,
    t: int,
    c: int,
    declared: Seq<char>,
)
    requires
        0 <= t < tables.len(),
        0 <= c < tables[t].1.len(),
        declared != tables[t].1[c].1,
        replacement_digests_apart(tables, t, c, (tables[t].1[c].0, declared)),
    ensures
        schema_fingerprint(tables) != schema_fingerprint(
            replace_column(tables, t, c, (tables[t].1[c].0, declared)),
        ),
{
    let col = tables[t].1[c];
    let in_a = col.0 + seq![':'] + col.1;
    let in_b = col.0 + seq![':'] + declared;
    if in_a == in_b {
        let k = col.0.len() as int + 1;
        assert(col.1 =~= in_a.subrange(k, in_a.len() as int));
        assert(declared =~= in_b.subrange(k, in_b.len() as int));
    }
    lemma_column_change_propagates(tables, t, c, (col.0, declared));
}

/// Adding a table changes the fingerprint (and so does removing one, read
/// the other way round), given 64-digit digests that do not collide on the
/// two aggregate inputs.
pub proof fn lemma_added_table_changes_fingerprint(
    tables: Seq<(Seq<char>, Seq<(Seq<char>, Seq<char>)>)>,
    extra: (Seq<char>, Seq<(Seq<char>, Seq<char>)>),
    at: int,
)
    requires
        0 <= at <= tables.len(),
        forall|x: Seq<char>| #[trigger] sha256_hex_of(x).len() == 64,
        digests_apart(
            concat_all(tables.map_values(|x: (Seq<char>, Seq<(Seq<char>, Seq<char>)>)| table_digest(x))),
            concat_all(
                tables.insert(at, extra).map_values(
                    |x: (Seq<char>, Seq<(Seq<char>, Seq<char>)>)| table_digest(x),
                ),
            ),
        ),
    ensures
        schema_fingerprint(tables) != schema_fingerprint(tables.insert(at, extra)),
{
    let tda = tables.map_values(|x: (Seq<char>, Seq<(Seq<char>, Seq<char>)>)| table_digest(x));
    let tdb = tables.insert(at, extra).map_values(
        |x: (Seq<char>, Seq<(Seq<char>, Seq<char>)>)| table_digest(x),
    );
    lemma_concat_len(tda);
    lemma_concat_len(tdb);
}

/// Digest of `name:type` for one column.
pub fn calculate_column_hash(name: &str, declared_type: &str) -> (r: String)
    ensures
        r@ == column_digest((name@, declared_type@)),
        is_hex_digest(r@),
{
    let mut text = String::new();
    text.append(name);
    proof {
        reveal_strlit(":");
    }
    text.append(":");
    text.append(declared_type);
    assert(text@ =~= name@ + seq![':'] + declared_type@);
    sha256_hex(text.as_str())
}

/// Digest of the table name followed by its column digests in order.
pub fn calculate_table_hash(table_name: &str, column_hashes: &[String]) -> (r: String)
    ensures
        r@ == sha256_hex_of(table_name@ + concat_all(column_hashes@.map_values(|h: String| h@))),
        is_hex_digest(r@),
{
    let ghost hs = column_hashes@.map_values(|h: String| h@);
    let mut text = String::new();
    text.append(table_name);
    let mut i: usize = 0;
    assert(hs.take(0) =~= Seq::<Seq<char>>::empty());
    assert(text@ =~= table_name@ + concat_all(hs.take(0)));
    while i < column_hashes.len()
        invariant
            i <= column_hashes@.len(),
            hs == column_hashes@.map_values(|h: String| h@),
            text@ == table_name@ + concat_all(hs.take(i as int)),
        decreases column_hashes@.len() - i,
    {
        assert(hs.take(i + 1).drop_last() =~= hs.take(i as int));
        text.append(column_hashes[i].as_str());
        assert(text@ =~= table_name@ + concat_all(hs.take(i + 1)));
        i = i + 1;
    }
    assert(hs.take(i as int) =~= hs);
    sha256_hex(text.as_str())
}

fn table_hash(table: &TableSchema) -> (r: String)
    ensures
        r@ == table_digest(table@),
{
    let mut hashes: Vec<String> = Vec::new();
    let ghost cols = table@.1;
    let mut i: usize = 0;
    while i < table.columns.len()
        invariant
            i <= table.columns@.len(),
            cols == table.columns@.map_values(|c: ColumnInfo| c@),
            hashes@.map_values(|h: String| h@) =~= cols.take(i as int).map_values(
                |c: (Seq<char>, Seq<char>)| column_digest(c),
            ),
        decreases table.columns@.len() - i,
    {
        let col = &table.columns[i];
        let h = calculate_column_hash(col.name.as_str(), col.declared_type.as_str());
        let ghost before = hashes@.map_values(|h: String| h@);
        hashes.push(h);
        assert(hashes@.map_values(|h: String| h@) =~= before.push(h@));
        assert(cols[i as int] == col@);
        assert(cols.take(i + 1) =~= cols.take(i as int).push(cols[i as int]));
        assert(cols.take(i + 1).map_values(|c: (Seq<char>, Seq<char>)| column_digest(c))
            =~= cols.take(i as int).map_values(|c: (Seq<char>, Seq<char>)| column_digest(c)).push(
            column_digest(col@),
        ));
        i = i + 1;
    }
    assert(cols.take(i as int) =~= cols);
    calculate_table_hash(table.name.as_str(), hashes.as_slice())
}

/// The fingerprint of the given tables, in the order given.
pub fn schema_hash(tables: &[TableSchema]) -> (r: String)
    ensures
        r@ == schema_fingerprint(schema_view(tables@)),
        is_hex_digest(r@),
{
    let ghost ts = schema_view(tables@);
    let ghost digests = ts.map_values(|t: (Seq<char>, Seq<(Seq<char>, Seq<char>)>)| table_digest(t));
    let mut text = String::new();
    let mut i: usize = 0;
    assert(digests.take(0) =~= Seq::<Seq<char>>::empty());
    assert(text@ =~= concat_all(digests.take(0)));
    while i < tables.len()
        invariant
            i <= tables@.len(),
            ts == schema_view(tables@),
            digests == ts.map_values(|t: (Seq<char>, Seq<(Seq<char>, Seq<char>)>)| table_digest(t)),
            text@ == concat_all(digests.take(i as int)),
        decreases tables@.len() - i,
    {
        let h = table_hash(&tables[i]);
        assert(digests.take(i + 1).drop_last() =~= digests.take(i as int));
        text.append(h.as_str());
        i = i + 1;
    }
    assert(digests.take(i as int) =~= digests);
    sha256_hex(text.as_str())
}

/// Ok iff the fingerprint of `tables` equals `expected`.
pub fn check_schema(tables: &[TableSchema], expected: &str) -> (r: Result<(), CascadeError>)
    ensures
        r is Ok <==> schema_fingerprint(schema_view(tables@)) == expected@,
        r matches Err(CascadeError::SchemaMismatch { expected: e, actual: a }) ==> e@ == expected@
            && a@ == schema_fingerprint(schema_view(tables@)),
        r is Err ==> r matches Err(CascadeError::SchemaMismatch { .. }),
{
    let actual = schema_hash(tables);
    let exp = String::from_str(expected);
    if actual == exp {
        Ok(())
    } else {
        Err(CascadeError::SchemaMismatch { expected: exp, actual })
    }
}

} // verus!
