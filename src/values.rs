//! The value sequence of a message body: tagged values one after another,
//! including the hierarchical hdata records.
use crate::bytes::{be_i32_of, lossy_string, utf8_lossy};
use crate::data::{DataView, HdataKey, HdataObject, ObjectView, WeechatData};
use crate::errors::{ErrorKind, WeechatParseError};
use crate::grammar::{
    read_type_tag, is_field_tag, lemma_repeat_err_stays, malformed, read_field, read_pointer,
    long_text_end, read_i32, same_outcome, spec_field, spec_long_text, spec_ptr, spec_repeat,
    tag_of, text_or_empty, value_outcome, values_view, StepFn, TypeTag,
};
use vstd::prelude::*;

verus! {

/// `b` cut at every byte equal to `sep`; there is always at least one part.
pub open spec fn split_at_byte(b: Seq<u8>, sep: u8) -> Seq<Seq<u8>>
    decreases b.len(),
{
    if b.len() == 0 {
        seq![Seq::empty()]
    } else {
        let prev = split_at_byte(b.drop_last(), sep);
        if b.last() == sep {
            prev.push(Seq::empty())
        } else {
            prev.update(prev.len() - 1, prev.last().push(b.last()))
        }
    }
}

pub open spec fn parts_view(v: Seq<Vec<u8>>) -> Seq<Seq<u8>> {
    v.map_values(|x: Vec<u8>| x@)
}

fn split_bytes(b: &[u8], sep: u8) -> (r: Vec<Vec<u8>>)
    ensures
        parts_view(r@) == split_at_byte(b@, sep),
{
    let mut parts: Vec<Vec<u8>> = Vec::new();
    let mut current: Vec<u8> = Vec::new();
    let mut i: usize = 0;
    assert(b@.subrange(0, 0) =~= Seq::<u8>::empty());
    assert(parts_view(parts@).push(current@) =~= seq![Seq::<u8>::empty()]);
    while i < b.len()
        invariant
            i <= b.len(),
            split_at_byte(b@.subrange(0, i as int), sep) == parts_view(parts@).push(current@),
        decreases b.len() - i,
    {
        let c = b[i];
        assert(b@.subrange(0, i + 1).drop_last() =~= b@.subrange(0, i as int));
        let ghost prev = parts_view(parts@);
        let ghost cur = current@;
        if c == sep {
            parts.push(current);
            current = Vec::new();
            assert(parts_view(parts@) =~= prev.push(cur));
        } else {
            current.push(c);
            assert(prev.push(cur).update(prev.len() as int, cur.push(c)) =~= prev.push(current@));
        }
        i = i + 1;
    }
    assert(b@.subrange(0, i as int) =~= b@);
    let ghost prev = parts_view(parts@);
    let ghost cur = current@;
    parts.push(current);
    assert(parts_view(parts@) =~= prev.push(cur));
    parts
}

/// One `name:type` entry of an hdata schema: the name, the type's text and
/// its tag, where the type is one that a schema may name.
pub open spec fn spec_key(item: Seq<u8>) -> Option<(Seq<u8>, Seq<u8>, TypeTag)> {
    let parts = split_at_byte(item, 58);
    if parts.len() == 2 && parts[1].len() == 3 {
        match tag_of(parts[1]) {
            Some(t) => if is_field_tag(t) {
                Some((parts[0], parts[1], t))
            } else {
                None
            },
            None => None,
        }
    } else {
        None
    }
}

/// An hdata schema: comma-separated `name:type` entries; empty text is the
/// empty schema.
pub open spec fn spec_schema(keys: Seq<u8>) -> Option<Seq<(Seq<u8>, Seq<u8>, TypeTag)>> {
    if keys.len() == 0 {
        Some(Seq::empty())
    } else {
        let items = split_at_byte(keys, 44);
        if forall|i: int| 0 <= i < items.len() ==> (#[trigger] spec_key(items[i])) is Some {
            Some(items.map_values(|it: Seq<u8>| spec_key(it)->Some_0))
        } else {
            None
        }
    }
}

/// The schema as the decoded value shows it: names and type texts.
pub open spec fn schema_view(s: Seq<(Seq<u8>, Seq<u8>, TypeTag)>) -> Seq<(Seq<char>, Seq<char>)> {
    s.map_values(|e: (Seq<u8>, Seq<u8>, TypeTag)| (utf8_lossy(e.0), utf8_lossy(e.1)))
}

/// The schema as object decoding uses it: names and tags.
pub open spec fn field_schema(s: Seq<(Seq<u8>, Seq<u8>, TypeTag)>) -> Seq<(Seq<char>, TypeTag)> {
    s.map_values(|e: (Seq<u8>, Seq<u8>, TypeTag)| (utf8_lossy(e.0), e.2))
}

pub open spec fn keys_view(keys: Seq<HdataKey>) -> Seq<(Seq<char>, Seq<char>)> {
    keys.map_values(|k: HdataKey| (k.name@, k.kind@))
}

pub open spec fn exec_schema(keys: Seq<HdataKey>, tags: Seq<TypeTag>) -> Seq<(Seq<char>, TypeTag)> {
    Seq::new(keys.len(), |i: int| (keys[i].name@, tags[i]))
}

fn parse_schema(keys: &[u8]) -> (r: Option<(Vec<HdataKey>, Vec<TypeTag>)>)
    ensures
        r is Some <==> spec_schema(keys@) is Some,
        r is Some ==> {
            let (ks, ts) = r->Some_0;
            let s = spec_schema(keys@)->Some_0;
            &&& ks@.len() == ts@.len()
            &&& keys_view(ks@) == schema_view(s)
            &&& exec_schema(ks@, ts@) == field_schema(s)
        },
{
    let mut names: Vec<HdataKey> = Vec::new();
    let mut tags: Vec<TypeTag> = Vec::new();
    if keys.len() == 0 {
        assert(keys_view(names@) =~= schema_view(Seq::empty()));
        assert(exec_schema(names@, tags@) =~= field_schema(Seq::empty()));
        return Some((names, tags));
    }
    let items = split_bytes(keys, 44);
    let ghost item_bytes = parts_view(items@);
    let mut i: usize = 0;
    while i < items.len()
        invariant
            i <= items.len(),
            keys@.len() > 0,
            item_bytes == parts_view(items@),
            item_bytes == split_at_byte(keys@, 44),
            names@.len() == i,
            tags@.len() == i,
            forall|j: int| 0 <= j < i ==> (#[trigger] spec_key(item_bytes[j])) is Some,
            forall|j: int|
                0 <= j < i ==> {
                    &&& (#[trigger] names@[j]).name@ == utf8_lossy(spec_key(item_bytes[j])->Some_0.0)
                    &&& names@[j].kind@ == utf8_lossy(spec_key(item_bytes[j])->Some_0.1)
                    &&& tags@[j] == spec_key(item_bytes[j])->Some_0.2
                },
        decreases items.len() - i,
    {
        let parts = split_bytes(items[i].as_slice(), 58);
        if parts.len() != 2 || parts[1].len() != 3 {
            assert(!(spec_key(item_bytes[i as int]) is Some));
            assert(spec_schema(keys@) is None);
            return None;
        }
        let tag = match read_type_tag(parts[1].as_slice()) {
            Some(TypeTag::Hda) | Some(TypeTag::Htb) | Some(TypeTag::Inf) | Some(TypeTag::Inl) | None => {
                assert(!(spec_key(item_bytes[i as int]) is Some));
                assert(spec_schema(keys@) is None);
                return None;
            },
            Some(t) => t,
        };
        let key = HdataKey {
            name: lossy_string(parts[0].as_slice()),
            kind: lossy_string(parts[1].as_slice()),
        };
        assert(item_bytes[i as int] == items@[i as int]@);
        assert(parts_view(parts@)[0] == parts@[0]@ && parts_view(parts@)[1] == parts@[1]@);
        assert(spec_key(item_bytes[i as int]) == Some((parts@[0]@, parts@[1]@, tag)));
        let ghost key_view = (key.name@, key.kind@);
        let ghost names_before = names@;
        let ghost tags_before = tags@;
        names.push(key);
        tags.push(tag);
        assert forall|j: int| 0 <= j <= i implies {
            &&& (#[trigger] names@[j]).name@ == utf8_lossy(spec_key(item_bytes[j])->Some_0.0)
            &&& names@[j].kind@ == utf8_lossy(spec_key(item_bytes[j])->Some_0.1)
            &&& tags@[j] == spec_key(item_bytes[j])->Some_0.2
        } by {
            if j < i {
                assert(names@[j] == names_before[j] && tags@[j] == tags_before[j]);
            }
        }
        i = i + 1;
    }
    let ghost s = spec_schema(keys@)->Some_0;
    assert(keys_view(names@) =~= schema_view(s));
    assert(exec_schema(names@, tags@) =~= field_schema(s));
    Some((names, tags))
}


/// Decoding each item as a pointer, kept as its shown text.
pub open spec fn pointer_step() -> StepFn<Seq<char>> {
    |i: int, c: Seq<u8>|
        match spec_ptr(c) {
            Err(e) => Err(e),
            Ok((v, k)) => Ok((v->Ptr_0, k)),
        }
}

/// Decoding the `i`-th item as the `i`-th field of `schema`, under its name.
pub open spec fn field_step(schema: Seq<(Seq<char>, TypeTag)>) -> StepFn<(Seq<char>, DataView)> {
    |i: int, c: Seq<u8>|
        match spec_field(schema[i].1, c) {
            Err(e) => Err(e),
            Ok((v, k)) => Ok(((schema[i].0, v), k)),
        }
}

/// One hdata record: `depth` pointers, then one field per schema entry.
#[verifier::opaque]
pub open spec fn spec_object(schema: Seq<(Seq<char>, TypeTag)>, depth: nat, b: Seq<u8>) -> Result<
    (ObjectView, nat),
    ErrorKind,
> {
    match spec_repeat(pointer_step(), b, depth) {
        Err(e) => Err(e),
        Ok((ps, k1)) => match spec_repeat(field_step(schema), b.skip(k1 as int), schema.len()) {
            Err(e) => Err(e),
            Ok((fs, k2)) => Ok((ObjectView { pointers: ps, fields: fs }, k1 + k2)),
        },
    }
}

/// Decoding each item as an hdata record.
pub open spec fn object_step(schema: Seq<(Seq<char>, TypeTag)>, depth: nat) -> StepFn<ObjectView> {
    |i: int, c: Seq<u8>| spec_object(schema, depth, c)
}

/// The number of pointers in each record of an hdata whose path is `path`:
/// one per `/`-separated segment.
pub open spec fn path_depth(path: Seq<u8>) -> nat {
    split_at_byte(path, 47).len()
}

/// An hdata value: path, schema, four-byte signed record count, records.
/// The path and the schema are texts with four-byte lengths; a null one
/// reads as empty.
#[verifier::opaque]
pub open spec fn spec_hdata(b: Seq<u8>) -> Result<(DataView, nat), ErrorKind> {
    match spec_long_text(b) {
        Err(e) => Err(e),
        Ok((path, k1)) => match spec_long_text(b.skip(k1 as int)) {
            Err(e) => Err(e),
            Ok((keys, k2)) => {
                let p = text_or_empty(path);
                let c = k1 + k2;
                match spec_schema(text_or_empty(keys)) {
                    None => malformed(),
                    Some(s) => if b.len() < c + 4 || be_i32_of(b.skip(c as int)) < 0 {
                        malformed()
                    } else {
                        match spec_repeat(
                            object_step(field_schema(s), path_depth(p)),
                            b.skip(c + 4int),
                            be_i32_of(b.skip(c as int)) as nat,
                        ) {
                            Err(e) => Err(e),
                            Ok((objs, used)) => Ok(
                                (DataView::Hdata(utf8_lossy(p), schema_view(s), objs), (c + 4 + used) as nat),
                            ),
                        }
                    },
                }
            },
        },
    }
}

pub open spec fn pointers_view(v: Seq<String>) -> Seq<Seq<char>> {
    v.map_values(|p: String| p@)
}

pub open spec fn fields_view(v: Seq<(String, WeechatData)>) -> Seq<(Seq<char>, DataView)> {
    v.map_values(|f: (String, WeechatData)| (f.0@, f.1.view()))
}

pub open spec fn object_view(o: HdataObject) -> ObjectView {
    ObjectView { pointers: pointers_view(o.pointers@), fields: fields_view(o.fields@) }
}

pub open spec fn objects_view(v: Seq<HdataObject>) -> Seq<ObjectView> {
    v.map_values(|o: HdataObject| object_view(o))
}

pub proof fn lemma_hdata_view(path: String, keys: Vec<HdataKey>, objects: Vec<HdataObject>)
    ensures
        WeechatData::Hdata(path, keys, objects).view() == DataView::Hdata(
            path@,
            keys_view(keys@),
            objects_view(objects@),
        ),
{
    let v = WeechatData::Hdata(path, keys, objects).view();
    assert(v->Hdata_1 =~= keys_view(keys@));
    assert forall|i: int| 0 <= i < objects.len() implies v->Hdata_2[i] == object_view(objects@[i]) by {
        assert(v->Hdata_2[i].pointers =~= pointers_view(objects@[i].pointers@));
        assert(v->Hdata_2[i].fields =~= fields_view(objects@[i].fields@));
    }
    assert(v->Hdata_2 =~= objects_view(objects@));
}

fn read_object(keys: &Vec<HdataKey>, tags: &Vec<TypeTag>, depth: usize, buffer: &[u8]) -> (r: Result<
    (usize, HdataObject),
    WeechatParseError,
>)
    requires
        keys@.len() == tags@.len(),
    ensures
        same_outcome(r, spec_object(exec_schema(keys@, tags@), depth as nat, buffer@)),
        r is Ok ==> spec_object(exec_schema(keys@, tags@), depth as nat, buffer@)->Ok_0 == (
            object_view(r->Ok_0.1),
            r->Ok_0.0 as nat,
        ),
        r is Ok ==> r->Ok_0.0 <= buffer@.len(),
{
    reveal(spec_object);
    let ghost schema = exec_schema(keys@, tags@);
    let mut pointers: Vec<String> = Vec::new();
    let mut position: usize = 0;
    let mut j: usize = 0;
    assert(pointers_view(pointers@) =~= Seq::<Seq<char>>::empty());
    while j < depth
        invariant
            position <= buffer.len(),
            j <= depth,
            spec_repeat(pointer_step(), buffer@, j as nat) == Ok::<(Seq<Seq<char>>, nat), ErrorKind>(
                (pointers_view(pointers@), position as nat),
            ),
        decreases depth - j,
    {
        let rest = &buffer[position..buffer.len()];
        assert(rest@ =~= buffer@.skip(position as int));
        match read_pointer(rest) {
            Err(e) => {
                proof {
                    reveal(spec_object);
                    lemma_repeat_err_stays(pointer_step(), buffer@, (j + 1) as nat, depth as nat);
                }
                return Err(e);
            },
            Ok((len, text)) => {
                let ghost before = pointers@;
                pointers.push(text);
                position = position + len;
                j = j + 1;
                assert(pointers_view(pointers@) =~= pointers_view(before).push(text@));
            },
        }
    }
    let ghost start = position;
    let ghost fb = buffer@.skip(start as int);
    let mut fields: Vec<(String, WeechatData)> = Vec::new();
    let mut f: usize = 0;
    assert(fields_view(fields@) =~= Seq::<(Seq<char>, DataView)>::empty());
    while f < keys.len()
        invariant
            start <= position <= buffer.len(),
            fb == buffer@.skip(start as int),
            f <= keys.len(),
            keys@.len() == tags@.len(),
            schema == exec_schema(keys@, tags@),
            spec_repeat(pointer_step(), buffer@, depth as nat) == Ok::<(Seq<Seq<char>>, nat), ErrorKind>(
                (pointers_view(pointers@), start as nat),
            ),
            spec_repeat(field_step(schema), fb, f as nat) == Ok::<
                (Seq<(Seq<char>, DataView)>, nat),
                ErrorKind,
            >((fields_view(fields@), (position - start) as nat)),
        decreases keys.len() - f,
    {
        let rest = &buffer[position..buffer.len()];
        assert(rest@ =~= fb.skip(position - start));
        match read_field(tags[f], rest) {
            Err(e) => {
                proof {
                    reveal(spec_object);
                    lemma_repeat_err_stays(field_step(schema), fb, (f + 1) as nat, keys.len() as nat);
                }
                return Err(e);
            },
            Ok((len, value)) => {
                let ghost before = fields@;
                let name = keys[f].name.clone();
                let ghost entry = (name@, value.view());
                fields.push((name, value));
                position = position + len;
                f = f + 1;
                assert(fields_view(fields@) =~= fields_view(before).push(entry));
            },
        }
    }
    let object = HdataObject { pointers, fields };
    Ok((position, object))
}

/// An `hda` value: path, schema of `name:type` entries, four-byte signed
/// record count, then the records. Each record holds one pointer per path
/// segment and one field per schema entry, decoded by the entry's type.
pub fn read_hdata(buffer: &[u8]) -> (r: Result<(usize, WeechatData), WeechatParseError>)
    ensures
        value_outcome(r, spec_hdata(buffer@)),
        r is Ok ==> r->Ok_0.0 <= buffer@.len(),
{
    reveal(spec_hdata);
    let k1 = long_text_end(buffer)?;
    let path_bytes = &buffer[4..k1];
    let rest = &buffer[k1..buffer.len()];
    assert(rest@ =~= buffer@.skip(k1 as int));
    let k2 = long_text_end(rest)?;
    let key_bytes = &rest[4..k2];
    let c = k1 + k2;
    let (keys, tags) = match parse_schema(key_bytes) {
        Some(schema) => schema,
        None => {
            return Err(WeechatParseError::new(ErrorKind::MalformedBinaryParse, "invalid hdata keys"));
        },
    };
    if buffer.len() - c < 4 {
        return Err(WeechatParseError::new(ErrorKind::MalformedBinaryParse, "missing hdata count"));
    }
    let count = read_i32(&buffer[c..c + 4])?;
    assert(buffer@.subrange(c as int, c + 4) =~= buffer@.skip(c as int).subrange(0, 4));
    if count < 0 {
        return Err(WeechatParseError::new(ErrorKind::MalformedBinaryParse, "negative hdata count"));
    }
    let depth = split_bytes(path_bytes, 47).len();
    let path = lossy_string(path_bytes);
    let ghost schema = exec_schema(keys@, tags@);
    let ghost ob = buffer@.skip(c + 4);
    let total = count as usize;
    let ghost outcome = spec_repeat(object_step(schema, depth as nat), ob, total as nat);
    assert(spec_hdata(buffer@) == match outcome {
        Err(e) => Err(e),
        Ok((objs, used)) => Ok::<(DataView, nat), ErrorKind>(
            (DataView::Hdata(path@, keys_view(keys@), objs), (c + 4 + used) as nat),
        ),
    });
    let mut objects: Vec<HdataObject> = Vec::new();
    let mut position: usize = c + 4;
    let mut n: usize = 0;
    assert(objects_view(objects@) =~= Seq::<ObjectView>::empty());
    while n < total
        invariant
            c + 4 <= position <= buffer.len(),
            n <= total,
            ob == buffer@.skip(c + 4),
            outcome == spec_repeat(object_step(schema, depth as nat), ob, total as nat),
            spec_hdata(buffer@) == match outcome {
                Err(e) => Err(e),
                Ok((objs, used)) => Ok::<(DataView, nat), ErrorKind>(
                    (DataView::Hdata(path@, keys_view(keys@), objs), (c + 4 + used) as nat),
                ),
            },
            keys@.len() == tags@.len(),
            schema == exec_schema(keys@, tags@),
            spec_repeat(object_step(schema, depth as nat), ob, n as nat) == Ok::<
                (Seq<ObjectView>, nat),
                ErrorKind,
            >((objects_view(objects@), (position - (c + 4)) as nat)),
        decreases total - n,
    {
        let rest = &buffer[position..buffer.len()];
        assert(rest@ =~= ob.skip(position - (c + 4)));
        match read_object(&keys, &tags, depth, rest) {
            Err(e) => {
                proof {
                    lemma_repeat_err_stays(
                        object_step(schema, depth as nat),
                        ob,
                        (n + 1) as nat,
                        total as nat,
                    );
                }
                return Err(e);
            },
            Ok((len, object)) => {
                let ghost before = objects@;
                objects.push(object);
                position = position + len;
                n = n + 1;
                assert(objects_view(objects@) =~= objects_view(before).push(object_view(object)));
            },
        }
    }
    proof {
        lemma_hdata_view(path, keys, objects);
    }
    Ok((position, WeechatData::Hdata(path, keys, objects)))
}


/// One tagged value: a three-byte tag, then the value that it announces.
/// `htb`, `inf` and `inl` are left out on purpose; any other tag is unknown.
#[verifier::opaque]
pub open spec fn spec_value(b: Seq<u8>) -> Result<(DataView, nat), ErrorKind> {
    match tag_of(b) {
        None => Err(ErrorKind::UnknownType),
        Some(TypeTag::Htb) | Some(TypeTag::Inf) | Some(TypeTag::Inl) => Err(
            ErrorKind::NotImplemented,
        ),
        Some(TypeTag::Hda) => match spec_hdata(b.skip(3)) {
            Err(e) => Err(e),
            Ok((v, k)) => Ok((v, k + 3)),
        },
        Some(t) => match spec_field(t, b.skip(3)) {
            Err(e) => Err(e),
            Ok((v, k)) => Ok((v, k + 3)),
        },
    }
}

/// A value sequence: tagged values one after another until the bytes run
/// out; the first failure fails it all.
pub open spec fn spec_values(b: Seq<u8>) -> Result<Seq<DataView>, ErrorKind>
    decreases b.len(),
{
    if b.len() == 0 {
        Ok(Seq::empty())
    } else if b.len() < 3 {
        malformed()
    } else {
        match spec_value(b) {
            Err(e) => Err(e),
            // A decoded value always takes between 3 and `b.len()` bytes; the
            // bound is spelled out so that the recursion visibly shrinks.
            Ok((v, k)) => if 0 < k <= b.len() {
                match spec_values(b.skip(k as int)) {
                    Err(e) => Err(e),
                    Ok(vs) => Ok(seq![v] + vs),
                }
            } else {
                malformed()
            },
        }
    }
}

/// `vs` followed by what `r` holds, or `r`'s failure.
pub open spec fn prepend(vs: Seq<DataView>, r: Result<Seq<DataView>, ErrorKind>) -> Result<
    Seq<DataView>,
    ErrorKind,
> {
    match r {
        Err(e) => Err(e),
        Ok(ws) => Ok(vs + ws),
    }
}

/// A value sequence that starts with an unrecognised tag fails with
/// `UnknownType`, so no value of it is returned.
pub proof fn lemma_unknown_type_fails(b: Seq<u8>)
    requires
        b.len() >= 3,
        tag_of(b) is None,
    ensures
        spec_values(b) == Err::<Seq<DataView>, ErrorKind>(ErrorKind::UnknownType),
{
    reveal(spec_value);
}

/// One tagged value from the start of `buffer`.
pub fn read_value(buffer: &[u8]) -> (r: Result<(usize, WeechatData), WeechatParseError>)
    requires
        buffer@.len() >= 3,
    ensures
        value_outcome(r, spec_value(buffer@)),
        r is Ok ==> 3 <= r->Ok_0.0 <= buffer@.len(),
{
    reveal(spec_value);
    let rest = &buffer[3..buffer.len()];
    assert(rest@ =~= buffer@.skip(3));
    match read_type_tag(buffer) {
        None => {
            let tag = lossy_string(&buffer[0..3]);
            Err(WeechatParseError::with_detail(ErrorKind::UnknownType, "Got unfamiliar type", tag))
        },
        Some(TypeTag::Htb) | Some(TypeTag::Inf) | Some(TypeTag::Inl) => {
            Err(WeechatParseError::new(ErrorKind::NotImplemented, "type not supported"))
        },
        Some(TypeTag::Hda) => {
            let (len, value) = read_hdata(rest)?;
            Ok((len + 3, value))
        },
        Some(tag) => {
            let (len, value) = read_field(tag, rest)?;
            Ok((len + 3, value))
        },
    }
}

/// Decodes a whole value sequence, in order.
pub fn decode_values(buffer: &[u8]) -> (r: Result<Vec<WeechatData>, WeechatParseError>)
    ensures
        same_outcome(r, spec_values(buffer@)),
        r is Ok ==> values_view(r->Ok_0@) == spec_values(buffer@)->Ok_0,
{
    let mut acc: Vec<WeechatData> = Vec::new();
    let mut position: usize = 0;
    assert(buffer@.skip(0) =~= buffer@);
    assert(values_view(acc@) =~= Seq::<DataView>::empty());
    assert(prepend(Seq::empty(), spec_values(buffer@)) =~~= spec_values(buffer@)) by {
        if spec_values(buffer@) is Ok {
            assert(Seq::<DataView>::empty() + spec_values(buffer@)->Ok_0 =~= spec_values(buffer@)->Ok_0);
        }
    }
    while position < buffer.len()
        invariant
            position <= buffer.len(),
            spec_values(buffer@) == prepend(values_view(acc@), spec_values(buffer@.skip(position as int))),
        decreases buffer.len() - position,
    {
        let rest = &buffer[position..buffer.len()];
        assert(rest@ =~= buffer@.skip(position as int));
        if rest.len() < 3 {
            return Err(WeechatParseError::new(ErrorKind::MalformedBinaryParse, "truncated type tag"));
        }
        let (len, value) = read_value(rest)?;
        let ghost before = values_view(acc@);
        let ghost tail = spec_values(rest@.skip(len as int));
        acc.push(value);
        position = position + len;
        assert(rest@.skip(len as int) =~= buffer@.skip(position as int));
        assert(values_view(acc@) =~= before.push(value.view()));
        proof {
            if tail is Ok {
                assert(before + (seq![value.view()] + tail->Ok_0) =~= before.push(value.view())
                    + tail->Ok_0);
            }
        }
    }
    assert(buffer@.skip(position as int) =~= Seq::<u8>::empty());
    assert(values_view(acc@) + Seq::<DataView>::empty() =~= values_view(acc@));
    Ok(acc)
}

} // verus!
