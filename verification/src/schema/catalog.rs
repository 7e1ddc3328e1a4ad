//! A serialisable catalog of schemas.
//!
//! The registry holds the *live* schemas for a running session; the catalog is
//! its on-disk representation. Persisting the catalog lets a restarted broker
//! decode records that reference schemas defined before the restart. The wire
//! form mirrors `SCHEMA_DEF` closely so the same reader logic applies:
//!
//! ```text
//! magic    : "CVCT"          (4 bytes)
//! version  : 1 byte
//! count    : u16 schemas
//! schema   : id u16, ver u16, nfields u16, [field...]
//! field    : id u16, type u8, width u16, namelen u8, name bytes
//! ```

use vstd::prelude::*;
use vstd::utf8::{decode_utf8, encode_utf8, valid_utf8};

use crate::error::{Error, Kind};
use crate::keyed::{has_key, index_of_key, keys_unique};
use crate::schema::field::{code_of, type_of_code, lemma_code_roundtrip, FieldSpec, FieldType};
use crate::schema::{lemma_row_width_bound, row_width_of, schema_of, Schema};
use crate::text::{utf8_lossy, utf8_text};
use crate::util::{be16, lemma_be16_roundtrip, u16_bytes, ByteReader, ByteWriter};

verus! {

const CATALOG_MAGIC: [u8; 4] = [0x43, 0x56, 0x43, 0x54];

const CATALOG_VERSION: u8 = 1;

pub open spec fn catalog_magic() -> Seq<u8> {
    seq![0x43u8, 0x56, 0x43, 0x54]
}

/// A field as the catalog sees it: id, type, width and name.
pub type FieldView = (u16, FieldType, u16, Seq<char>);

/// A schema as the catalog sees it: id, version and fields.
pub type SchemaView = (u16, u16, Seq<FieldView>);

pub open spec fn fview(f: FieldSpec) -> FieldView {
    (f.id, f.ty, f.width, f.name@)
}

pub open spec fn sview(s: Schema) -> SchemaView {
    (s.id, s.version, s.fields@.map_values(|f: FieldSpec| fview(f)))
}

pub open spec fn schema_key(s: Schema) -> u16 {
    s.id
}

// --- encoding ---------------------------------------------------------------

/// A name: its length (at most 255) and its first UTF-8 bytes.
pub open spec fn enc_name(n: Seq<char>) -> Seq<u8> {
    let b = encode_utf8(n);
    let k = if b.len() < 255 { b.len() as int } else { 255 };
    seq![k as u8] + b.take(k)
}

pub open spec fn enc_field(f: FieldSpec) -> Seq<u8> {
    u16_bytes(f.id) + seq![code_of(f.ty)] + u16_bytes(f.width) + enc_name(f.name@)
}

pub open spec fn enc_fields(fs: Seq<FieldSpec>) -> Seq<u8>
    decreases fs.len(),
{
    if fs.len() == 0 {
        Seq::empty()
    } else {
        enc_field(fs[0]) + enc_fields(fs.drop_first())
    }
}

pub open spec fn enc_schema(s: Schema) -> Seq<u8> {
    u16_bytes(s.id) + u16_bytes(s.version) + u16_bytes(s.fields@.len() as u16) + enc_fields(s.fields@)
}

pub open spec fn enc_schemas(ss: Seq<Schema>) -> Seq<u8>
    decreases ss.len(),
{
    if ss.len() == 0 {
        Seq::empty()
    } else {
        enc_schema(ss[0]) + enc_schemas(ss.drop_first())
    }
}

/// The serialised form of a catalog holding `ss` (counts are written as
/// 16-bit values).
pub open spec fn spec_encode(ss: Seq<Schema>) -> Seq<u8> {
    catalog_magic() + seq![1u8] + u16_bytes(ss.len() as u16) + enc_schemas(ss)
}

proof fn lemma_enc_fields_push(fs: Seq<FieldSpec>, f: FieldSpec)
    ensures
        enc_fields(fs.push(f)) == enc_fields(fs) + enc_field(f),
    decreases fs.len(),
{
    if fs.len() == 0 {
        assert(fs.push(f).drop_first() =~= Seq::<FieldSpec>::empty());
        assert(fs.push(f)[0] == f);
        assert(enc_fields(Seq::<FieldSpec>::empty()) == Seq::<u8>::empty());
        assert(enc_fields(fs) == Seq::<u8>::empty());
        assert(enc_fields(fs.push(f)) =~= enc_field(f));
    } else {
        assert(fs.push(f).drop_first() =~= fs.drop_first().push(f));
        lemma_enc_fields_push(fs.drop_first(), f);
        assert(fs.push(f)[0] == fs[0]);
        assert(enc_fields(fs.push(f)) =~= enc_fields(fs) + enc_field(f));
    }
}

proof fn lemma_enc_schemas_push(ss: Seq<Schema>, s: Schema)
    ensures
        enc_schemas(ss.push(s)) == enc_schemas(ss) + enc_schema(s),
    decreases ss.len(),
{
    if ss.len() == 0 {
        assert(ss.push(s).drop_first() =~= Seq::<Schema>::empty());
        assert(ss.push(s)[0] == s);
        assert(enc_schemas(Seq::<Schema>::empty()) == Seq::<u8>::empty());
        assert(enc_schemas(ss) == Seq::<u8>::empty());
        assert(enc_schemas(ss.push(s)) =~= enc_schema(s));
    } else {
        assert(ss.push(s).drop_first() =~= ss.drop_first().push(s));
        lemma_enc_schemas_push(ss.drop_first(), s);
        assert(ss.push(s)[0] == ss[0]);
        assert(enc_schemas(ss.push(s)) =~= enc_schemas(ss) + enc_schema(s));
    }
}

// --- decoding ---------------------------------------------------------------

/// One field from the front of `b`, and the bytes after it.
pub open spec fn dec_field(b: Seq<u8>) -> Option<(FieldView, Seq<u8>)> {
    if b.len() < 6 {
        None
    } else {
        match type_of_code(b[2]) {
            None => None,
            Some(ty) => {
                let nlen = b[5] as int;
                if b.len() < 6 + nlen {
                    None
                } else {
                    Some(
                        (
                            (be16(b) as u16, ty, be16(b.skip(3)) as u16, utf8_text(b.subrange(6, 6 + nlen))),
                            b.skip(6 + nlen),
                        ),
                    )
                }
            },
        }
    }
}

/// `n` fields from the front of `b`, and the bytes after them.
pub open spec fn dec_fields(b: Seq<u8>, n: nat) -> Option<(Seq<FieldView>, Seq<u8>)>
    decreases n,
{
    if n == 0 {
        Some((Seq::empty(), b))
    } else {
        match dec_field(b) {
            None => None,
            Some((f, rest)) => match dec_fields(rest, (n - 1) as nat) {
                None => None,
                Some((fs, rest2)) => Some((seq![f] + fs, rest2)),
            },
        }
    }
}

pub open spec fn dec_schema(b: Seq<u8>) -> Option<(SchemaView, Seq<u8>)> {
    if b.len() < 6 {
        None
    } else {
        match dec_fields(b.skip(6), be16(b.skip(4)) as nat) {
            None => None,
            Some((fs, rest)) => Some(((be16(b) as u16, be16(b.skip(2)) as u16, fs), rest)),
        }
    }
}

pub open spec fn dec_schemas(b: Seq<u8>, n: nat) -> Option<Seq<SchemaView>>
    decreases n,
{
    if n == 0 {
        Some(Seq::empty())
    } else {
        match dec_schema(b) {
            None => None,
            Some((s, rest)) => match dec_schemas(rest, (n - 1) as nat) {
                None => None,
                Some(ss) => Some(seq![s] + ss),
            },
        }
    }
}

/// The catalog's push rule on views: a schema replaces the entry with its id
/// when its version is at least as high, and is appended when its id is new.
pub open spec fn push_view(cat: Seq<SchemaView>, s: SchemaView) -> Seq<SchemaView> {
    if exists|i: int| 0 <= i < cat.len() && (#[trigger] cat[i]).0 == s.0 {
        let i = choose|i: int| 0 <= i < cat.len() && (#[trigger] cat[i]).0 == s.0;
        if s.1 >= cat[i].1 { cat.update(i, s) } else { cat }
    } else {
        cat.push(s)
    }
}

pub open spec fn push_all(cat: Seq<SchemaView>, ss: Seq<SchemaView>) -> Seq<SchemaView>
    decreases ss.len(),
{
    if ss.len() == 0 {
        cat
    } else {
        push_all(push_view(cat, ss[0]), ss.drop_first())
    }
}

/// The schemas a serialised catalog decodes to, in catalog order, or `None`
/// if the bytes are not a catalog.
pub open spec fn spec_decode(b: Seq<u8>) -> Option<Seq<SchemaView>> {
    if b.len() < 7 || b.take(4) != catalog_magic() || b[4] != 1 {
        None
    } else {
        match dec_schemas(b.skip(7), be16(b.skip(5)) as nat) {
            None => None,
            Some(ss) => Some(push_all(Seq::empty(), ss)),
        }
    }
}

#[derive(Debug)]
pub struct Catalog {
    schemas: Vec<Schema>,
}

impl Default for Catalog {
    fn default() -> (c: Catalog)
        ensures
            c.spec_schemas() == Seq::<Schema>::empty(),
    {
        Catalog::new()
    }
}

impl Catalog {
    pub closed spec fn spec_schemas(&self) -> Seq<Schema> {
        self.schemas@
    }

    pub fn new() -> (c: Catalog)
        ensures
            c.spec_schemas() == Seq::<Schema>::empty(),
    {
        Catalog { schemas: Vec::new() }
    }

    pub fn len(&self) -> (n: usize)
        ensures
            n == self.spec_schemas().len(),
    {
        self.schemas.len()
    }

    pub fn is_empty(&self) -> (b: bool)
        ensures
            b == (self.spec_schemas().len() == 0),
    {
        self.schemas.len() == 0
    }

    fn position(&self, id: u16) -> (r: Option<usize>)
        ensures
            match r {
                Some(i) => i < self.schemas@.len() && self.schemas@[i as int].id == id && forall|j: int|
                    0 <= j < i ==> (#[trigger] self.schemas@[j]).id != id,
                None => forall|j: int| 0 <= j < self.schemas@.len() ==> (#[trigger] self.schemas@[j]).id != id,
            },
    {
        let mut i: usize = 0;
        while i < self.schemas.len()
            invariant
                i <= self.schemas@.len(),
                forall|j: int| 0 <= j < i ==> (#[trigger] self.schemas@[j]).id != id,
            decreases self.schemas@.len() - i,
        {
            if self.schemas[i].id == id {
                return Some(i);
            }
            i = i + 1;
        }
        None
    }

    /// Add a schema. An entry with the same id is replaced when the new
    /// version is at least as high and kept otherwise; a new id is appended.
    pub fn push(&mut self, schema: Schema)
        requires
            keys_unique(old(self).spec_schemas(), |s: Schema| schema_key(s)),
        ensures
            keys_unique(final(self).spec_schemas(), |s: Schema| schema_key(s)),
            has_key(old(self).spec_schemas(), |s: Schema| schema_key(s), schema.id) ==> {
                let i = index_of_key(old(self).spec_schemas(), |s: Schema| schema_key(s), schema.id);
                final(self).spec_schemas() == (if schema.version >= old(self).spec_schemas()[i].version {
                    old(self).spec_schemas().update(i, schema)
                } else {
                    old(self).spec_schemas()
                })
            },
            !has_key(old(self).spec_schemas(), |s: Schema| schema_key(s), schema.id) ==> final(self).spec_schemas()
                == old(self).spec_schemas().push(schema),
    {
        let ghost ss = self.schemas@;
        match self.position(schema.id) {
            Some(i) => {
                proof {
                    crate::keyed::lemma_index_of_key(ss, |s: Schema| schema_key(s), i as int);
                }
                if schema.version >= self.schemas[i].version {
                    proof {
                        crate::keyed::lemma_keyed_update(ss, |s: Schema| schema_key(s), i as int, schema);
                    }
                    self.schemas.set(i, schema);
                }
            },
            None => {
                proof {
                    if has_key(ss, |s: Schema| schema_key(s), schema.id) {
                        let j = choose|j: int| 0 <= j < ss.len() && schema_key(#[trigger] ss[j]) == schema.id;
                        assert(ss[j].id != schema.id);
                    }
                    crate::keyed::lemma_keyed_push(ss, |s: Schema| schema_key(s), schema);
                }
                self.schemas.push(schema);
            },
        }
    }

    /// The first schema with this id.
    pub fn get(&self, id: u16) -> (r: Option<&Schema>)
        ensures
            match r {
                Some(s) => exists|i: int| 0 <= i < self.spec_schemas().len() && self.spec_schemas()[i] == *s
                    && s.id == id && forall|j: int| 0 <= j < i ==> (#[trigger] self.spec_schemas()[j]).id != id,
                None => forall|j: int| 0 <= j < self.spec_schemas().len() ==> (#[trigger] self.spec_schemas()[j]).id
                    != id,
            },
    {
        match self.position(id) {
            Some(i) => {
                assert(self.spec_schemas()[i as int] == self.schemas@[i as int]);
                Some(&self.schemas[i])
            },
            None => None,
        }
    }

    pub fn schemas(&self) -> (s: &[Schema])
        ensures
            s@ == self.spec_schemas(),
    {
        self.schemas.as_slice()
    }

    /// Serialise the catalog.
    pub fn encode(&self) -> (out: Vec<u8>)
        ensures
            out@ == spec_encode(self.spec_schemas()),
    {
        let ghost ss = self.schemas@;
        let mut w = ByteWriter::new();
        w.bytes(CATALOG_MAGIC.as_slice());
        w.u8(CATALOG_VERSION);
        w.u16(self.schemas.len() as u16);
        let ghost head = w@;
        assert(head =~= catalog_magic() + seq![1u8] + u16_bytes(ss.len() as u16));
        let mut i: usize = 0;
        while i < self.schemas.len()
            invariant
                i <= ss.len(),
                ss == self.schemas@,
                w@ == head + enc_schemas(ss.take(i as int)),
            decreases ss.len() - i,
        {
            let s = &self.schemas[i];
            let ghost before = w@;
            w.u16(s.id);
            w.u16(s.version);
            w.u16(s.fields.len() as u16);
            let ghost shead = w@;
            let mut j: usize = 0;
            while j < s.fields.len()
                invariant
                    j <= s.fields@.len(),
                    w@ == shead + enc_fields(s.fields@.take(j as int)),
                decreases s.fields@.len() - j,
            {
                let f = &s.fields[j];
                let ghost fb = w@;
                w.u16(f.id);
                w.u8(f.ty.code());
                w.u16(f.width);
                let name = f.name.as_str().as_bytes();
                let nlen: usize = if name.len() < 255 { name.len() } else { 255 };
                w.u8(nlen as u8);
                w.bytes(&name[0..nlen]);
                proof {
                    assert(name@.subrange(0, nlen as int) =~= encode_utf8(f.name@).take(nlen as int));
                    assert(w@ =~= fb + enc_field(*f));
                    lemma_enc_fields_push(s.fields@.take(j as int), *f);
                    assert(s.fields@.take(j + 1) =~= s.fields@.take(j as int).push(*f));
                }
                j = j + 1;
            }
            proof {
                assert(s.fields@.take(s.fields@.len() as int) =~= s.fields@);
                assert(w@ =~= before + enc_schema(*s));
                lemma_enc_schemas_push(ss.take(i as int), *s);
                assert(ss.take(i + 1) =~= ss.take(i as int).push(*s));
            }
            i = i + 1;
        }
        assert(ss.take(ss.len() as int) =~= ss);
        w.into_vec()
    }

    /// Parse a serialised catalog. Every failure is `Malformed`: bad magic, an
    /// unsupported version, an unknown field type or truncated input.
    pub fn decode(data: &[u8]) -> (res: Result<Catalog, Error>)
        ensures
            match res {
                Ok(cat) => {
                    &&& spec_decode(data@) == Some(cat.spec_schemas().map_values(|s: Schema| sview(s)))
                    &&& keys_unique(cat.spec_schemas(), |s: Schema| schema_key(s))
                    &&& forall|i: int| 0 <= i < cat.spec_schemas().len() ==> #[trigger] schema_of(
                        cat.spec_schemas()[i],
                        cat.spec_schemas()[i].id,
                        cat.spec_schemas()[i].version,
                        cat.spec_schemas()[i].fields@,
                    )
                },
                Err(e) => spec_decode(data@) is None && e.kind == Kind::Malformed,
            },
    {
        let ghost b = data@;
        let mut r = ByteReader::new(data);
        let magic = r.take(4)?;
        if magic[0] != CATALOG_MAGIC[0] || magic[1] != CATALOG_MAGIC[1] || magic[2] != CATALOG_MAGIC[2]
            || magic[3] != CATALOG_MAGIC[3] {
            proof {
                if b.len() >= 7 && b.take(4) == catalog_magic() {
                    assert(b.take(4)[0] == magic@[0]);
                    assert(b.take(4)[1] == magic@[1]);
                    assert(b.take(4)[2] == magic@[2]);
                    assert(b.take(4)[3] == magic@[3]);
                }
            }
            return Err(Error::malformed("catalog: bad magic"));
        }
        assert(magic@ =~= catalog_magic());
        let version = r.u8()?;
        if version != CATALOG_VERSION {
            return Err(Error::malformed("catalog: unsupported version").with_context(version as u64));
        }
        let count = r.u16()?;
        proof {
            assert(b.take(4) =~= catalog_magic());
            assert(r@ =~= b.skip(7));
            assert(be16(b.skip(5)) == count) by {
                assert(b.skip(5)[0] == b[5] && b.skip(5)[1] == b[6]);
            }
        }
        let ghost b7 = b.skip(7);
        let mut cat = Catalog::new();
        let ghost mut parsed: Seq<SchemaView> = Seq::empty();
        let mut k: u16 = 0;
        while k < count
            invariant
                k <= count,
                b == data@,
                b.len() >= 7,
                b.take(4) == catalog_magic(),
                b[4] == 1,
                be16(b.skip(5)) == count,
                b7 == b.skip(7),
                dec_schemas(b7, count as nat) == prepend_schemas(parsed, dec_schemas(r@, (count - k) as nat)),
                parsed.len() == k,
                cat.spec_schemas().map_values(|s: Schema| sview(s)) == push_all(Seq::empty(), parsed),
                keys_unique(cat.spec_schemas(), |s: Schema| schema_key(s)),
                forall|i: int| 0 <= i < cat.spec_schemas().len() ==> #[trigger] schema_of(
                    cat.spec_schemas()[i],
                    cat.spec_schemas()[i].id,
                    cat.spec_schemas()[i].version,
                    cat.spec_schemas()[i].fields@,
                ),
            decreases count - k,
        {
            let ghost rb = r@;
            let schema = match read_schema(&mut r) {
                Ok(s) => s,
                Err(e) => {
                    proof {
                        assert(dec_schemas(rb, (count - k) as nat) is None);
                        assert(dec_schemas(b7, count as nat) is None);
                        assert(spec_decode(b) is None);
                    }
                    return Err(e);
                },
            };
            let ghost sv = sview(schema);
            proof {
                lemma_prepend_schemas_step(parsed, sv, rb, (count - k) as nat);
            }
            let ghost before_cat = cat.spec_schemas();
            cat.push(schema);
            proof {
                lemma_push_view(before_cat, schema, cat.spec_schemas());
                lemma_push_all_snoc(Seq::empty(), parsed, sv);
                parsed = parsed.push(sv);
                assert forall|i: int| 0 <= i < cat.spec_schemas().len() implies #[trigger] schema_of(
                    cat.spec_schemas()[i],
                    cat.spec_schemas()[i].id,
                    cat.spec_schemas()[i].version,
                    cat.spec_schemas()[i].fields@,
                ) by {
                    if i < before_cat.len() && cat.spec_schemas()[i] == before_cat[i] {
                        assert(schema_of(before_cat[i], before_cat[i].id, before_cat[i].version, before_cat[i].fields@));
                    }
                }
            }
            k = k + 1;
        }
        proof {
            assert(dec_schemas(r@, 0) == Some(Seq::<SchemaView>::empty()));
            assert(parsed + Seq::<SchemaView>::empty() =~= parsed);
        }
        Ok(cat)
    }
}

/// Read one field.
fn read_field(r: &mut ByteReader) -> (res: Result<FieldSpec, Error>)
    ensures
        match res {
            Ok(f) => dec_field(old(r)@) == Some((fview(f), final(r)@)),
            Err(e) => dec_field(old(r)@) is None && e.kind == Kind::Malformed,
        },
{
    let ghost fr = r@;
    let fid = r.u16()?;
    let code = r.u8()?;
    let ty = FieldType::from_code(code)?;
    let width = r.u16()?;
    let nlen = r.u8()?;
    proof {
        assert(fr.skip(1)[0] == fr[1]);
        assert(r@ =~= fr.skip(6));
        assert(be16(fr.skip(3)) == width) by {
            assert(fr.skip(3)[0] == fr[3] && fr.skip(3)[1] == fr[4]);
        }
    }
    let name_bytes = r.take(nlen as usize)?;
    let name = utf8_lossy(name_bytes);
    proof {
        assert(name_bytes@ =~= fr.subrange(6, 6 + nlen as int));
        assert(r@ =~= fr.skip(6 + nlen as int));
    }
    Ok(FieldSpec { id: fid, ty, width, name })
}

/// Read `n` fields.
fn read_fields(r: &mut ByteReader, n: u16) -> (res: Result<Vec<FieldSpec>, Error>)
    ensures
        match res {
            Ok(fs) => fs@.len() == n && dec_fields(old(r)@, n as nat) == Some(
                (fs@.map_values(|f: FieldSpec| fview(f)), final(r)@),
            ),
            Err(e) => dec_fields(old(r)@, n as nat) is None && e.kind == Kind::Malformed,
        },
{
    let ghost fb = r@;
    let mut fields: Vec<FieldSpec> = Vec::new();
    let mut j: u16 = 0;
    assert(Seq::<FieldView>::empty() + Seq::<FieldView>::empty() =~= Seq::<FieldView>::empty());
    while j < n
        invariant
            j <= n,
            fb == old(r)@,
            fields@.len() == j,
            dec_fields(fb, n as nat) == prepend_fields(
                fields@.map_values(|f: FieldSpec| fview(f)),
                dec_fields(r@, (n - j) as nat),
            ),
        decreases n - j,
    {
        let ghost fr = r@;
        let f = match read_field(r) {
            Ok(f) => f,
            Err(e) => {
                proof {
                    assert(dec_fields(fr, (n - j) as nat) is None);
                    assert(dec_fields(fb, n as nat) is None);
                }
                return Err(e);
            },
        };
        let ghost fv = fview(f);
        let ghost before = fields@.map_values(|f: FieldSpec| fview(f));
        proof {
            lemma_prepend_fields_step(before, fv, fr, (n - j) as nat);
        }
        fields.push(f);
        proof {
            assert(fields@.map_values(|f: FieldSpec| fview(f)) =~= before.push(fv));
        }
        j = j + 1;
    }
    proof {
        let acc = fields@.map_values(|f: FieldSpec| fview(f));
        assert(dec_fields(r@, 0) == Some((Seq::<FieldView>::empty(), r@)));
        assert(acc + Seq::<FieldView>::empty() =~= acc);
    }
    Ok(fields)
}

/// Read one schema.
fn read_schema(r: &mut ByteReader) -> (res: Result<Schema, Error>)
    ensures
        match res {
            Ok(s) => dec_schema(old(r)@) == Some((sview(s), final(r)@)) && schema_of(s, s.id, s.version, s.fields@),
            Err(e) => dec_schema(old(r)@) is None && e.kind == Kind::Malformed,
        },
{
    let ghost rb = r@;
    let id = r.u16()?;
    let ver = r.u16()?;
    let nfields = r.u16()?;
    proof {
        assert(r@ =~= rb.skip(6));
        assert(be16(rb.skip(2)) == ver) by {
            assert(rb.skip(2)[0] == rb[2] && rb.skip(2)[1] == rb[3]);
        }
        assert(be16(rb.skip(4)) == nfields) by {
            assert(rb.skip(4)[0] == rb[4] && rb.skip(4)[1] == rb[5]);
        }
    }
    let fields = read_fields(r, nfields)?;
    proof {
        lemma_row_width_bound(fields@);
    }
    let schema = Schema::new(id, ver, fields);
    Ok(schema)
}

pub open spec fn prepend_fields(acc: Seq<FieldView>, o: Option<(Seq<FieldView>, Seq<u8>)>) -> Option<(Seq<FieldView>, Seq<u8>)> {
    match o {
        Some((fs, rest)) => Some((acc + fs, rest)),
        None => None,
    }
}

pub open spec fn prepend_schemas(acc: Seq<SchemaView>, o: Option<Seq<SchemaView>>) -> Option<Seq<SchemaView>> {
    match o {
        Some(ss) => Some(acc + ss),
        None => None,
    }
}

proof fn lemma_prepend_fields_step(acc: Seq<FieldView>, fv: FieldView, b: Seq<u8>, n: nat)
    requires
        n > 0,
        dec_field(b) is Some,
        dec_field(b)->Some_0.0 == fv,
    ensures
        prepend_fields(acc, dec_fields(b, n)) == prepend_fields(acc.push(fv), dec_fields(dec_field(b)->Some_0.1, (n - 1) as nat)),
{
    match dec_fields(dec_field(b)->Some_0.1, (n - 1) as nat) {
        Some((fs, rest)) => {
            assert(acc + (seq![fv] + fs) =~= acc.push(fv) + fs);
        },
        None => {},
    }
}

proof fn lemma_prepend_schemas_step(acc: Seq<SchemaView>, sv: SchemaView, b: Seq<u8>, n: nat)
    requires
        n > 0,
        dec_schema(b) is Some,
        dec_schema(b)->Some_0.0 == sv,
    ensures
        prepend_schemas(acc, dec_schemas(b, n)) == prepend_schemas(acc.push(sv), dec_schemas(dec_schema(b)->Some_0.1, (n - 1) as nat)),
{
    match dec_schemas(dec_schema(b)->Some_0.1, (n - 1) as nat) {
        Some(ss) => {
            assert(acc + (seq![sv] + ss) =~= acc.push(sv) + ss);
        },
        None => {},
    }
}

proof fn lemma_push_all_snoc(cat: Seq<SchemaView>, ss: Seq<SchemaView>, s: SchemaView)
    ensures
        push_all(cat, ss.push(s)) == push_view(push_all(cat, ss), s),
    decreases ss.len(),
{
    if ss.len() == 0 {
        assert(ss.push(s).drop_first() =~= Seq::<SchemaView>::empty());
        assert(ss.push(s)[0] == s);
        assert(push_all(cat, ss) == cat);
        assert(push_all(push_view(cat, s), Seq::<SchemaView>::empty()) == push_view(cat, s));
    } else {
        assert(ss.push(s).drop_first() =~= ss.drop_first().push(s));
        assert(ss.push(s)[0] == ss[0]);
        lemma_push_all_snoc(push_view(cat, ss[0]), ss.drop_first(), s);
    }
}

/// `Catalog::push` acts on views as `push_view`.
proof fn lemma_push_view(before: Seq<Schema>, s: Schema, after: Seq<Schema>)
    requires
        keys_unique(before, |x: Schema| schema_key(x)),
        has_key(before, |x: Schema| schema_key(x), s.id) ==> {
            let i = index_of_key(before, |x: Schema| schema_key(x), s.id);
            after == (if s.version >= before[i].version { before.update(i, s) } else { before })
        },
        !has_key(before, |x: Schema| schema_key(x), s.id) ==> after == before.push(s),
    ensures
        after.map_values(|x: Schema| sview(x)) == push_view(before.map_values(|x: Schema| sview(x)), sview(s)),
{
    let bv = before.map_values(|x: Schema| sview(x));
    let sv = sview(s);
    if has_key(before, |x: Schema| schema_key(x), s.id) {
        let i = index_of_key(before, |x: Schema| schema_key(x), s.id);
        assert(bv[i].0 == sv.0);
        let c = choose|c: int| 0 <= c < bv.len() && (#[trigger] bv[c]).0 == sv.0;
        if c != i {
            assert(schema_key(before[c]) == schema_key(before[i]));
        }
        if s.version >= before[i].version {
            assert(after.map_values(|x: Schema| sview(x)) =~= bv.update(i, sv));
        } else {
            assert(after.map_values(|x: Schema| sview(x)) =~= bv);
        }
    } else {
        assert forall|c: int| 0 <= c < bv.len() implies (#[trigger] bv[c]).0 != sv.0 by {
            if bv[c].0 == sv.0 {
                assert(schema_key(before[c]) == s.id);
            }
        }
        assert(after.map_values(|x: Schema| sview(x)) =~= bv.push(sv));
    }
}

/// Every field name fits the 255-byte name slot.
pub open spec fn names_fit(fs: Seq<FieldSpec>) -> bool {
    forall|j: int| 0 <= j < fs.len() ==> encode_utf8((#[trigger] fs[j]).name@).len() <= 255
}

proof fn lemma_dec_enc_field(f: FieldSpec, rest: Seq<u8>)
    requires
        encode_utf8(f.name@).len() <= 255,
    ensures
        dec_field(enc_field(f) + rest) == Some((fview(f), rest)),
{
    let nb = encode_utf8(f.name@);
    let b = enc_field(f) + rest;
    let k = nb.len() as int;
    lemma_be16_roundtrip(f.id);
    lemma_be16_roundtrip(f.width);
    lemma_code_roundtrip(f.ty);
    vstd::utf8::encode_utf8_valid_utf8(f.name@);
    vstd::utf8::encode_utf8_decode_utf8(f.name@);
    assert(nb.take(k) =~= nb);
    assert(b[0] == u16_bytes(f.id)[0] && b[1] == u16_bytes(f.id)[1]);
    assert(b[2] == code_of(f.ty));
    assert(b.skip(3)[0] == u16_bytes(f.width)[0] && b.skip(3)[1] == u16_bytes(f.width)[1]);
    assert(b[5] == k as u8);
    assert(b.subrange(6, 6 + k) =~= nb);
    assert(b.skip(6 + k) =~= rest);
}

proof fn lemma_dec_enc_fields(fs: Seq<FieldSpec>, rest: Seq<u8>)
    requires
        names_fit(fs),
    ensures
        dec_fields(enc_fields(fs) + rest, fs.len()) == Some((fs.map_values(|f: FieldSpec| fview(f)), rest)),
    decreases fs.len(),
{
    if fs.len() == 0 {
        assert(enc_fields(fs) + rest =~= rest);
        assert(fs.map_values(|f: FieldSpec| fview(f)) =~= Seq::<FieldView>::empty());
    } else {
        let d = fs.drop_first();
        assert(names_fit(d)) by {
            assert forall|j: int| 0 <= j < d.len() implies encode_utf8((#[trigger] d[j]).name@).len() <= 255 by {
                assert(d[j] == fs[j + 1]);
            }
        }
        assert(encode_utf8(fs[0].name@).len() <= 255);
        let tail = enc_fields(d) + rest;
        assert(enc_fields(fs) + rest =~= enc_field(fs[0]) + tail);
        lemma_dec_enc_field(fs[0], tail);
        lemma_dec_enc_fields(d, rest);
        assert(fs.map_values(|f: FieldSpec| fview(f)) =~= seq![fview(fs[0])] + d.map_values(|f: FieldSpec| fview(f)));
    }
}

proof fn lemma_dec_enc_schema(s: Schema, rest: Seq<u8>)
    requires
        s.fields@.len() <= 65535,
        names_fit(s.fields@),
    ensures
        dec_schema(enc_schema(s) + rest) == Some((sview(s), rest)),
{
    let b = enc_schema(s) + rest;
    let n = s.fields@.len() as u16;
    lemma_be16_roundtrip(s.id);
    lemma_be16_roundtrip(s.version);
    lemma_be16_roundtrip(n);
    assert(b[0] == u16_bytes(s.id)[0] && b[1] == u16_bytes(s.id)[1]);
    assert(b.skip(2)[0] == u16_bytes(s.version)[0] && b.skip(2)[1] == u16_bytes(s.version)[1]);
    assert(b.skip(4)[0] == u16_bytes(n)[0] && b.skip(4)[1] == u16_bytes(n)[1]);
    assert(b.skip(6) =~= enc_fields(s.fields@) + rest);
    lemma_dec_enc_fields(s.fields@, rest);
}

proof fn lemma_dec_enc_schemas(ss: Seq<Schema>, rest: Seq<u8>)
    requires
        forall|i: int| 0 <= i < ss.len() ==> (#[trigger] ss[i]).fields@.len() <= 65535 && names_fit(ss[i].fields@),
    ensures
        dec_schemas(enc_schemas(ss) + rest, ss.len()) == Some(ss.map_values(|s: Schema| sview(s))),
    decreases ss.len(),
{
    if ss.len() == 0 {
        assert(ss.map_values(|s: Schema| sview(s)) =~= Seq::<SchemaView>::empty());
    } else {
        let d = ss.drop_first();
        assert forall|i: int| 0 <= i < d.len() implies (#[trigger] d[i]).fields@.len() <= 65535 && names_fit(d[i].fields@) by {
            assert(d[i] == ss[i + 1]);
        }
        assert(ss[0].fields@.len() <= 65535 && names_fit(ss[0].fields@));
        let tail = enc_schemas(d) + rest;
        assert(enc_schemas(ss) + rest =~= enc_schema(ss[0]) + tail);
        lemma_dec_enc_schema(ss[0], tail);
        lemma_dec_enc_schemas(d, rest);
        assert(ss.map_values(|s: Schema| sview(s)) =~= seq![sview(ss[0])] + d.map_values(|s: Schema| sview(s)));
    }
}

proof fn lemma_push_all_fresh(cat: Seq<SchemaView>, vs: Seq<SchemaView>)
    requires
        forall|i: int, j: int| 0 <= i < j < (cat + vs).len() ==> (#[trigger] (cat + vs)[i]).0 != (#[trigger] (cat + vs)[j]).0,
    ensures
        push_all(cat, vs) == cat + vs,
    decreases vs.len(),
{
    if vs.len() == 0 {
        assert(cat + vs =~= cat);
    } else {
        let v = vs[0];
        assert forall|i: int| 0 <= i < cat.len() implies (#[trigger] cat[i]).0 != v.0 by {
            assert((cat + vs)[i] == cat[i]);
            assert((cat + vs)[cat.len() as int] == v);
        }
        assert(push_view(cat, v) == cat.push(v));
        assert(cat.push(v) + vs.drop_first() =~= cat + vs);
        lemma_push_all_fresh(cat.push(v), vs.drop_first());
    }
}

/// Encoding then decoding a catalog gives back its schemas, in order: ids,
/// versions and fields (id, type, width, name). This holds whenever every
/// count fits its 16-bit slot and every name fits its 255-byte slot.
pub proof fn lemma_catalog_roundtrip(ss: Seq<Schema>)
    requires
        keys_unique(ss, |s: Schema| schema_key(s)),
        ss.len() <= 65535,
        forall|i: int| 0 <= i < ss.len() ==> (#[trigger] ss[i]).fields@.len() <= 65535 && names_fit(ss[i].fields@),
    ensures
        spec_decode(spec_encode(ss)) == Some(ss.map_values(|s: Schema| sview(s))),
{
    let b = spec_encode(ss);
    let n = ss.len() as u16;
    lemma_be16_roundtrip(n);
    assert(b.take(4) =~= catalog_magic());
    assert(b[4] == 1);
    assert(b.skip(5)[0] == u16_bytes(n)[0] && b.skip(5)[1] == u16_bytes(n)[1]);
    assert(b.skip(7) =~= enc_schemas(ss) + Seq::<u8>::empty());
    lemma_dec_enc_schemas(ss, Seq::<u8>::empty());
    let vs = ss.map_values(|s: Schema| sview(s));
    assert forall|i: int, j: int| 0 <= i < j < (Seq::<SchemaView>::empty() + vs).len() implies (#[trigger] (Seq::<SchemaView>::empty() + vs)[i]).0
        != (#[trigger] (Seq::<SchemaView>::empty() + vs)[j]).0 by {
        assert((Seq::<SchemaView>::empty() + vs)[i] == vs[i]);
        assert((Seq::<SchemaView>::empty() + vs)[j] == vs[j]);
        assert(schema_key(ss[i]) != schema_key(ss[j]));
    }
    lemma_push_all_fresh(Seq::empty(), vs);
    assert(Seq::<SchemaView>::empty() + vs =~= vs);
}

} // verus!
