//! JSON values and their textual form. The ghost model `JVal` mirrors the
//! executable `Json` tree; `json_text` is the exact byte text the writer
//! emits: keys verbatim, strings with quote, backslash and control bytes
//! escaped, arrays and objects in order, unsigned decimal numbers.

use vstd::prelude::*;
use vstd::pervasive::VecAdditionalExecFns;

verus! {

broadcast use {vstd::std_specs::vec::group_vec_axioms, vstd::seq::group_seq_axioms};

/// A JSON value as the ghost model sees it.
#[verifier::ext_equal]
pub enum JVal {
    Num(u64),
    Str(Seq<u8>),
    Arr(Seq<JVal>),
    Obj(Seq<(Seq<u8>, JVal)>),
}

/// A JSON value as the pipeline holds it.
#[derive(Debug)]
pub enum Json {
    Num(u64),
    Str(Vec<u8>),
    Arr(Vec<Json>),
    Obj(Vec<(Vec<u8>, Json)>),
}

/// The ghost model of a JSON value.
pub open spec fn jview(j: Json) -> JVal
    decreases j,
    via jview_dec
{
    match j {
        Json::Num(n) => JVal::Num(n),
        Json::Str(b) => JVal::Str(b@),
        Json::Arr(v) => JVal::Arr(jview_arr(v@)),
        Json::Obj(v) => JVal::Obj(jview_obj(v@)),
    }
}

/// The ghost models of array elements, in order.
pub open spec fn jview_arr(v: Seq<Json>) -> Seq<JVal>
    decreases v,
    via jview_arr_dec
{
    if v.len() == 0 {
        Seq::empty()
    } else {
        jview_arr(v.drop_last()).push(jview(v.last()))
    }
}

/// The ghost models of object entries, in order.
pub open spec fn jview_obj(v: Seq<(Vec<u8>, Json)>) -> Seq<(Seq<u8>, JVal)>
    decreases v,
    via jview_obj_dec
{
    if v.len() == 0 {
        Seq::empty()
    } else {
        jview_obj(v.drop_last()).push((v.last().0@, jview(v.last().1)))
    }
}

#[via_fn]
proof fn jview_dec(j: Json) {
    match j {
        Json::Arr(v) => {
            assert(decreases_to!(j => v));
            assert(decreases_to!(v => v@));
        },
        Json::Obj(v) => {
            assert(decreases_to!(j => v));
            assert(decreases_to!(v => v@));
        },
        _ => {},
    }
}

#[via_fn]
proof fn jview_arr_dec(v: Seq<Json>) {
    if v.len() > 0 {
        assert(decreases_to!(v => v[v.len() - 1]));
        assert(decreases_to!(v => v.subrange(0, v.len() - 1)));
        assert(v.drop_last() =~= v.subrange(0, v.len() - 1));
    }
}

#[via_fn]
proof fn jview_obj_dec(v: Seq<(Vec<u8>, Json)>) {
    if v.len() > 0 {
        assert(decreases_to!(v => v[v.len() - 1]));
        assert(decreases_to!(v => v.subrange(0, v.len() - 1)));
        assert(v.drop_last() =~= v.subrange(0, v.len() - 1));
    }
}

/// `jview_arr` is the elementwise model.
pub proof fn lemma_jview_arr(v: Seq<Json>)
    ensures
        jview_arr(v).len() == v.len(),
        forall|i: int| 0 <= i < v.len() ==> jview_arr(v)[i] == jview(v[i]),
    decreases v.len(),
{
    if v.len() > 0 {
        lemma_jview_arr(v.drop_last());
    }
}

/// `jview_obj` is the entrywise model.
pub proof fn lemma_jview_obj(v: Seq<(Vec<u8>, Json)>)
    ensures
        jview_obj(v).len() == v.len(),
        forall|i: int| 0 <= i < v.len() ==> jview_obj(v)[i] == (v[i].0@, jview(v[i].1)),
    decreases v.len(),
{
    if v.len() > 0 {
        lemma_jview_obj(v.drop_last());
    }
}

/// Decimal text of an unsigned number.
pub open spec fn dec_text(n: nat) -> Seq<u8>
    decreases n,
{
    if n < 10 {
        seq![(48 + n) as u8]
    } else {
        dec_text(n / 10).push((48 + n % 10) as u8)
    }
}

/// Lower-case hex digit of a value below sixteen.
pub open spec fn hex_digit(d: u8) -> u8 {
    if d < 10 {
        (48 + d) as u8
    } else {
        (87 + d) as u8
    }
}

/// The escaped text of one string byte.
pub open spec fn esc_byte(b: u8) -> Seq<u8> {
    if b == 34 {
        seq![92u8, 34u8]
    } else if b == 92 {
        seq![92u8, 92u8]
    } else if b < 32 {
        seq![92u8, 117u8, 48u8, 48u8, hex_digit(b / 16), hex_digit(b % 16)]
    } else {
        seq![b]
    }
}

/// The escaped text of a string body.
pub open spec fn esc_bytes(s: Seq<u8>) -> Seq<u8>
    decreases s.len(),
{
    if s.len() == 0 {
        Seq::empty()
    } else {
        esc_bytes(s.drop_last()) + esc_byte(s.last())
    }
}

/// The byte text of a JSON value.
pub open spec fn json_text(j: JVal) -> Seq<u8>
    decreases j,
{
    match j {
        JVal::Num(n) => dec_text(n as nat),
        JVal::Str(s) => seq![34u8] + esc_bytes(s) + seq![34u8],
        JVal::Arr(elems) => seq![91u8] + arr_text(elems) + seq![93u8],
        JVal::Obj(fields) => seq![123u8] + obj_text(fields) + seq![125u8],
    }
}

/// The comma-separated texts of array elements.
pub open spec fn arr_text(elems: Seq<JVal>) -> Seq<u8>
    decreases elems,
    via arr_text_dec
{
    if elems.len() == 0 {
        Seq::empty()
    } else if elems.len() == 1 {
        json_text(elems[0])
    } else {
        arr_text(elems.drop_last()) + seq![44u8] + json_text(elems.last())
    }
}

/// The text of one object entry.
pub open spec fn entry_text(p: (Seq<u8>, JVal)) -> Seq<u8>
    decreases p,
{
    seq![34u8] + esc_bytes(p.0) + seq![34u8, 58u8] + json_text(p.1)
}

/// The comma-separated texts of object entries.
pub open spec fn obj_text(fields: Seq<(Seq<u8>, JVal)>) -> Seq<u8>
    decreases fields,
    via obj_text_dec
{
    if fields.len() == 0 {
        Seq::empty()
    } else if fields.len() == 1 {
        entry_text(fields[0])
    } else {
        obj_text(fields.drop_last()) + seq![44u8] + entry_text(fields.last())
    }
}

#[via_fn]
proof fn arr_text_dec(elems: Seq<JVal>) {
    if elems.len() > 0 {
        assert(decreases_to!(elems => elems[0]));
        assert(decreases_to!(elems => elems[elems.len() - 1]));
        assert(decreases_to!(elems => elems.subrange(0, elems.len() - 1)));
        assert(elems.drop_last() =~= elems.subrange(0, elems.len() - 1));
    }
}

#[via_fn]
proof fn obj_text_dec(fields: Seq<(Seq<u8>, JVal)>) {
    if fields.len() > 0 {
        assert(decreases_to!(fields => fields[0]));
        assert(decreases_to!(fields => fields[fields.len() - 1]));
        assert(decreases_to!(fields => fields.subrange(0, fields.len() - 1)));
        assert(fields.drop_last() =~= fields.subrange(0, fields.len() - 1));
    }
}

fn hex_digit_of(d: u8) -> (r: u8)
    requires
        d < 16,
    ensures
        r == hex_digit(d),
{
    if d < 10 {
        48 + d
    } else {
        87 + d
    }
}

/// Appends the decimal text of `n`.
fn write_dec(n: u64, out: &mut Vec<u8>)
    ensures
        final(out)@ == old(out)@ + dec_text(n as nat),
    decreases n,
{
    if n < 10 {
        out.push(48 + n as u8);
        assert(out@ =~= old(out)@ + dec_text(n as nat));
    } else {
        write_dec(n / 10, out);
        out.push(48 + (n % 10) as u8);
        assert(out@ =~= old(out)@ + dec_text(n as nat));
    }
}

/// Appends the escaped body of a string.
fn write_escaped(s: &[u8], out: &mut Vec<u8>)
    ensures
        final(out)@ == old(out)@ + esc_bytes(s@),
{
    let n: usize = s.len();
    let mut i: usize = 0;
    proof {
        assert(s@.take(0) =~= Seq::<u8>::empty());
        assert(out@ + esc_bytes(s@.take(0)) =~= out@);
    }
    while i < n
        invariant
            n == s@.len(),
            0 <= i <= n,
            out@ == old(out)@ + esc_bytes(s@.take(i as int)),
        decreases n - i,
    {
        proof {
            assert(s@.take(i + 1).drop_last() =~= s@.take(i as int));
            assert(s@.take(i + 1).last() == s@[i as int]);
        }
        let ghost out0 = out@;
        let b = s[i];
        if b == 34 {
            out.push(92);
            out.push(34);
        } else if b == 92 {
            out.push(92);
            out.push(92);
        } else if b < 32 {
            out.push(92);
            out.push(117);
            out.push(48);
            out.push(48);
            out.push(hex_digit_of(b / 16));
            out.push(hex_digit_of(b % 16));
        } else {
            out.push(b);
        }
        proof {
            assert(out@ =~= out0 + esc_byte(b));
            assert(out0 + esc_byte(b) =~= old(out)@ + esc_bytes(s@.take(i + 1)));
        }
        i = i + 1;
    }
    proof {
        assert(s@.take(n as int) =~= s@);
    }
}

/// Appends the text of a JSON value.
#[verifier::loop_isolation(false)]
pub fn write_json(j: &Json, out: &mut Vec<u8>)
    ensures
        final(out)@ == old(out)@ + json_text(jview(*j)),
    decreases *j,
{
    match j {
        Json::Num(n) => {
            write_dec(*n, out);
        },
        Json::Str(b) => {
            out.push(34);
            write_escaped(b.as_slice(), out);
            out.push(34);
            assert(out@ =~= old(out)@ + json_text(jview(*j)));
        },
        Json::Arr(v) => {
            let ghost elems = jview_arr(v@);
            out.push(91);
            let n: usize = v.len();
            let mut i: usize = 0;
            proof {
                assert(arr_text(elems.take(0)) =~= Seq::<u8>::empty());
                assert(out@ =~= old(out)@ + seq![91u8] + arr_text(elems.take(0)));
            }
            while i < n
                invariant
                    n == v@.len(),
                    0 <= i <= n,
                    elems == jview_arr(v@),
                    out@ == old(out)@ + seq![91u8] + arr_text(elems.take(i as int)),
                decreases n - i,
            {
                proof {
                    lemma_jview_arr(v@);
                    assert(elems.take(i + 1).drop_last() =~= elems.take(i as int));
                    assert(elems.take(i + 1).last() == elems[i as int]);
                    assert(elems[i as int] == jview(v@[i as int]));
                }
                let ghost out0 = out@;
                if i > 0 {
                    out.push(44);
                }
                proof {
                    assert(decreases_to!(*j => (*j)->Arr_0));
                    assert((*j)->Arr_0 == *v);
                    assert(decreases_to!(*v => v@));
                    assert(decreases_to!(v@ => v@[i as int]));
                }
                write_json(&v[i], out);
                proof {
                    if i > 0 {
                        assert(out@ =~= out0 + seq![44u8] + json_text(elems[i as int]));
                        assert(out@ =~= old(out)@ + seq![91u8] + arr_text(
                            elems.take(i + 1),
                        ));
                    } else {
                        assert(out@ =~= out0 + json_text(elems[0]));
                        assert(arr_text(elems.take(1)) == json_text(elems[0]));
                        assert(out@ =~= old(out)@ + seq![91u8] + arr_text(
                            elems.take(i + 1),
                        ));
                    }
                }
                i = i + 1;
            }
            out.push(93);
            proof {
                lemma_jview_arr(v@);
                assert(elems.take(n as int) =~= elems);
                assert(out@ =~= old(out)@ + json_text(jview(*j)));
            }
        },
        Json::Obj(v) => {
            let ghost fields = jview_obj(v@);
            out.push(123);
            let n: usize = v.len();
            let mut i: usize = 0;
            proof {
                assert(obj_text(fields.take(0)) =~= Seq::<u8>::empty());
                assert(out@ =~= old(out)@ + seq![123u8] + obj_text(fields.take(0)));
            }
            while i < n
                invariant
                    n == v@.len(),
                    0 <= i <= n,
                    fields == jview_obj(v@),
                    out@ == old(out)@ + seq![123u8] + obj_text(fields.take(i as int)),
                decreases n - i,
            {
                proof {
                    lemma_jview_obj(v@);
                    assert(fields.take(i + 1).drop_last() =~= fields.take(i as int));
                    assert(fields.take(i + 1).last() == fields[i as int]);
                    assert(fields[i as int] == (v@[i as int].0@, jview(v@[i as int].1)));
                }
                let ghost out0 = out@;
                if i > 0 {
                    out.push(44);
                }
                let entry = &v[i];
                out.push(34);
                write_escaped(entry.0.as_slice(), out);
                out.push(34);
                out.push(58);
                proof {
                    assert(decreases_to!(*j => (*j)->Obj_0));
                    assert((*j)->Obj_0 == *v);
                    assert(decreases_to!(*v => v@));
                    assert(decreases_to!(v@ => v@[i as int]));
                    assert(decreases_to!(v@[i as int] => v@[i as int].1));
                }
                write_json(&entry.1, out);
                proof {
                    let et = entry_text(fields[i as int]);
                    if i > 0 {
                        assert(out@ =~= out0 + seq![44u8] + et);
                        assert(out@ =~= old(out)@ + seq![123u8] + obj_text(
                            fields.take(i + 1),
                        ));
                    } else {
                        assert(out@ =~= out0 + et);
                        assert(obj_text(fields.take(1)) == entry_text(fields[0]));
                        assert(out@ =~= old(out)@ + seq![123u8] + obj_text(
                            fields.take(i + 1),
                        ));
                    }
                }
                i = i + 1;
            }
            out.push(125);
            proof {
                lemma_jview_obj(v@);
                assert(fields.take(n as int) =~= fields);
                assert(out@ =~= old(out)@ + json_text(jview(*j)));
            }
        },
    }
}

/// The full byte text of a JSON value.
pub fn to_text(j: &Json) -> (r: Vec<u8>)
    ensures
        r@ == json_text(jview(*j)),
{
    let mut out: Vec<u8> = Vec::new();
    write_json(j, &mut out);
    proof {
        assert(Seq::<u8>::empty() + json_text(jview(*j)) =~= json_text(jview(*j)));
    }
    out
}

/// First value under `key` in an object's entries.
pub open spec fn jobj_get(fields: Seq<(Seq<u8>, JVal)>, key: Seq<u8>) -> Option<JVal>
    decreases fields.len(),
{
    if fields.len() == 0 {
        None
    } else if fields[0].0 == key {
        Some(fields[0].1)
    } else {
        jobj_get(fields.drop_first(), key)
    }
}

proof fn lemma_jobj_get_skip(fields: Seq<(Seq<u8>, JVal)>, key: Seq<u8>, i: int)
    requires
        0 <= i <= fields.len(),
        forall|j: int| 0 <= j < i ==> fields[j].0 != key,
    ensures
        jobj_get(fields, key) == jobj_get(fields.skip(i), key),
    decreases i,
{
    if i == 0 {
        assert(fields.skip(0) =~= fields);
    } else {
        lemma_jobj_get_skip(fields, key, i - 1);
        assert(fields.skip(i - 1).drop_first() =~= fields.skip(i));
        assert(fields.skip(i - 1)[0] == fields[i - 1]);
    }
}

/// First value under `key` when the value is an object, `None` otherwise.
pub fn json_obj_get<'a>(j: &'a Json, key: &[u8]) -> (r: Option<&'a Json>)
    ensures
        match r {
            Some(v) => {
                &&& jview(*j) is Obj
                &&& jobj_get(jview(*j)->Obj_0, key@) == Some(jview(*v))
            },
            None => jview(*j) is Obj ==> jobj_get(jview(*j)->Obj_0, key@) is None,
        },
{
    match j {
        Json::Obj(v) => {
            let ghost fields = jview(*j)->Obj_0;
            proof {
                lemma_jview_obj(v@);
            }
            let n: usize = v.len();
            let mut i: usize = 0;
            while i < n
                invariant
                    n == v@.len(),
                    fields == jview(*j)->Obj_0,
                    jview(*j) is Obj,
                    fields == jview_obj(v@),
                    fields.len() == n,
                    0 <= i <= n,
                    forall|k: int| 0 <= k < i ==> fields[k].0 != key@,
                decreases n - i,
            {
                proof {
                    lemma_jview_obj(v@);
                }
                if crate::bytesutil::bytes_eq(v[i].0.as_slice(), key) {
                    proof {
                        lemma_jobj_get_skip(fields, key@, i as int);
                        assert(fields.skip(i as int)[0] == fields[i as int]);
                    }
                    return Some(&v[i].1);
                }
                assert(fields[i as int].0 == v@[i as int].0@);
                i = i + 1;
            }
            proof {
                lemma_jobj_get_skip(fields, key@, n as int);
            }
            None
        },
        _ => None,
    }
}

/// Entries with the first entry under `key` replaced by `value`, or with
/// the pair appended when no entry bears the key.
pub open spec fn jobj_set(
    fields: Seq<(Seq<u8>, JVal)>,
    key: Seq<u8>,
    value: JVal,
) -> Seq<(Seq<u8>, JVal)>
    decreases fields.len(),
{
    if fields.len() == 0 {
        seq![(key, value)]
    } else if fields[0].0 == key {
        seq![(key, value)] + fields.drop_first()
    } else {
        seq![fields[0]] + jobj_set(fields.drop_first(), key, value)
    }
}

proof fn lemma_jobj_set_found(fields: Seq<(Seq<u8>, JVal)>, key: Seq<u8>, value: JVal, i: int)
    requires
        0 <= i < fields.len(),
        forall|j: int| 0 <= j < i ==> fields[j].0 != key,
        fields[i].0 == key,
    ensures
        jobj_set(fields, key, value) =~= fields.take(i) + seq![(key, value)] + fields.skip(
            i + 1,
        ),
    decreases i,
{
    if i == 0 {
        assert(jobj_set(fields, key, value) =~= fields.take(0) + seq![(key, value)]
            + fields.skip(1));
    } else {
        lemma_jobj_set_found(fields.drop_first(), key, value, i - 1);
        assert(fields.drop_first().take(i - 1) =~= fields.take(i).drop_first());
        assert(fields.drop_first().skip(i) =~= fields.skip(i + 1));
        assert(jobj_set(fields, key, value) =~= seq![fields[0]] + jobj_set(
            fields.drop_first(),
            key,
            value,
        ));
        assert(seq![fields[0]] + (fields.drop_first().take(i - 1) + seq![(key, value)]
            + fields.drop_first().skip(i)) =~= fields.take(i) + seq![(key, value)]
            + fields.skip(i + 1));
    }
}

proof fn lemma_jobj_set_missing(fields: Seq<(Seq<u8>, JVal)>, key: Seq<u8>, value: JVal)
    requires
        forall|j: int| 0 <= j < fields.len() ==> fields[j].0 != key,
    ensures
        jobj_set(fields, key, value) =~= fields.push((key, value)),
    decreases fields.len(),
{
    if fields.len() > 0 {
        lemma_jobj_set_missing(fields.drop_first(), key, value);
        assert(seq![fields[0]] + fields.drop_first().push((key, value)) =~= fields.push(
            (key, value),
        ));
    }
}

/// The object with its entry under `key` set to `value`. A value that is
/// not an object is handed back unchanged.
#[verifier::loop_isolation(false)]
pub fn json_obj_set(j: Json, key: &[u8], value: Json) -> (r: Json)
    ensures
        jview(r) == match jview(j) {
            JVal::Obj(fields) => JVal::Obj(jobj_set(fields, key@, jview(value))),
            _ => jview(j),
        },
{
    let ghost jv = jview(j);
    match j {
        Json::Obj(mut v) => {
            let ghost fields = jv->Obj_0;
            proof {
                assert(fields == jview_obj(v@));
                lemma_jview_obj(v@);
            }
            let n: usize = v.len();
            let mut i: usize = 0;
            while i < n
                invariant
                    n == v@.len(),
                    fields == jview_obj(v@),
                    fields.len() == n,
                    0 <= i <= n,
                    forall|k: int| 0 <= k < i ==> fields[k].0 != key@,
                decreases n - i,
            {
                proof {
                    lemma_jview_obj(v@);
                }
                if crate::bytesutil::bytes_eq(v[i].0.as_slice(), key) {
                    proof {
                        lemma_jobj_set_found(fields, key@, jview(value), i as int);
                    }
                    let name = crate::bytesutil::copy_bytes(key);
                    let ghost v0 = v@;
                    v.set(i, (name, value));
                    let r = Json::Obj(v);
                    proof {
                        lemma_jview_obj(v0);
                        lemma_jview_obj(v0.update(i as int, (name, value)));
                        assert(jview_obj(v0.update(i as int, (name, value))) =~= fields.take(
                            i as int,
                        ) + seq![(key@, jview(value))] + fields.skip(i + 1));
                        assert(jview(r) =~~= JVal::Obj(jobj_set(fields, key@, jview(value))));
                    }
                    return r;
                }
                assert(fields[i as int].0 == v@[i as int].0@);
                i = i + 1;
            }
            proof {
                lemma_jobj_set_missing(fields, key@, jview(value));
            }
            let name = crate::bytesutil::copy_bytes(key);
            let ghost v0 = v@;
            v.push((name, value));
            let r = Json::Obj(v);
            proof {
                lemma_jview_obj(v0);
                lemma_jview_obj(v0.push((name, value)));
                assert(jview_obj(v0.push((name, value))) =~= fields.push((key@, jview(value))));
                assert(jview(r) =~~= JVal::Obj(jobj_set(fields, key@, jview(value))));
            }
            r
        },
        other => other,
    }
}

} // verus!
