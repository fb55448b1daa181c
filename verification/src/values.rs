//! The crate's JSON-like value type. Context variables resolve to these
//! values, and the lockfile and the parent-state hand-off are written as
//! them. Mathematically a value is a `Jv`, the view of a `JVal`.
use serde_json::Value as SerdeVal;
use vstd::prelude::*;

verus! {

/// Mathematical model of a JSON-like value.
#[verifier::ext_equal]
pub ghost enum Jv {
    Null,
    Bool(bool),
    Int(int),
    /// A number that is not a plain integer, kept as its decimal text.
    Num(Seq<char>),
    Str(Seq<char>),
    Arr(Seq<Jv>),
    Obj(Seq<(Seq<char>, Jv)>),
}

/// A JSON-like value: what a context variable resolves to.
pub enum JVal {
    Null,
    Bool(bool),
    Int(i64),
    /// A number that is not a plain integer, kept as its decimal text.
    Num(String),
    Str(String),
    Arr(Vec<JVal>),
    Obj(Vec<(String, JVal)>),
}

/// The model of a value.
pub open spec fn jv_of(v: JVal) -> Jv
    decreases v,
{
    match v {
        JVal::Null => Jv::Null,
        JVal::Bool(b) => Jv::Bool(b),
        JVal::Int(i) => Jv::Int(i as int),
        JVal::Num(s) => Jv::Num(s@),
        JVal::Str(s) => Jv::Str(s@),
        JVal::Arr(items) => Jv::Arr(jv_of_seq(items@)),
        JVal::Obj(fields) => Jv::Obj(jv_of_fields(fields@)),
    }
}

/// The models of an array's items.
pub open spec fn jv_of_seq(s: Seq<JVal>) -> Seq<Jv>
    decreases s,
{
    if s.len() == 0 {
        Seq::empty()
    } else {
        jv_of_seq(s.drop_last()).push(jv_of(s.last()))
    }
}

/// The models of an object's fields.
pub open spec fn jv_of_fields(s: Seq<(String, JVal)>) -> Seq<(Seq<char>, Jv)>
    decreases s,
{
    if s.len() == 0 {
        Seq::empty()
    } else {
        jv_of_fields(s.drop_last()).push((s.last().0@, jv_of(s.last().1)))
    }
}

/// An array's model has one entry per item, in order.
pub proof fn lemma_jv_of_seq(s: Seq<JVal>)
    ensures
        jv_of_seq(s).len() == s.len(),
        forall|i: int| 0 <= i < s.len() ==> jv_of_seq(s)[i] == jv_of(s[i]),
    decreases s.len(),
{
    if s.len() > 0 {
        lemma_jv_of_seq(s.drop_last());
        assert forall|i: int| 0 <= i < s.len() implies jv_of_seq(s)[i] == jv_of(s[i]) by {
            if i < s.len() - 1 {
                assert(s.drop_last()[i] == s[i]);
            }
        }
    }
}

/// An object's model has one entry per field, in order.
pub proof fn lemma_jv_of_fields(s: Seq<(String, JVal)>)
    ensures
        jv_of_fields(s).len() == s.len(),
        forall|i: int| 0 <= i < s.len() ==> jv_of_fields(s)[i] == (s[i].0@, jv_of(s[i].1)),
    decreases s.len(),
{
    if s.len() > 0 {
        lemma_jv_of_fields(s.drop_last());
        assert forall|i: int| 0 <= i < s.len() implies jv_of_fields(s)[i] == (
        s[i].0@,
        jv_of(s[i].1),
        ) by {
            if i < s.len() - 1 {
                assert(s.drop_last()[i] == s[i]);
            }
        }
    }
}

impl View for JVal {
    type V = Jv;

    open spec fn view(&self) -> Jv {
        jv_of(*self)
    }
}

/// What `serde_json::from_str` answers on a given string: either the parsed
/// value or a refusal, a function of the characters alone.
pub uninterp spec fn json_parse_of(s: Seq<char>) -> Option<Jv>;

/// What `serde_json::to_string` renders a given value as, a function of the
/// value alone.
pub uninterp spec fn json_text_of(v: Jv) -> Seq<char>;

/// Declares serde_json's value type so wrappers can pass it through.
#[verifier::external_type_specification]
#[verifier::external_body]
pub struct ExJsonValue(serde_json::Value);

/// Relies on serde_json::Value: maps each JSON node, one variant arm each,
/// to the crate's own value type; integral numbers to `Int`, others to the
/// number's own text.
#[verifier::external_body]
pub(crate) fn value_from_serde(v: &SerdeVal) -> JVal {
    match v {
        SerdeVal::Null => JVal::Null,
        SerdeVal::Bool(b) => JVal::Bool(*b),
        SerdeVal::Number(n) => match n.as_i64() {
            Some(i) => JVal::Int(i),
            None => JVal::Num(n.to_string()),
        },
        SerdeVal::String(s) => JVal::Str(s.clone()),
        SerdeVal::Array(a) => JVal::Arr(a.iter().map(value_from_serde).collect()),
        SerdeVal::Object(m) => JVal::Obj(
            m.iter().map(|(k, x)| (k.clone(), value_from_serde(x))).collect(),
        ),
    }
}

/// Relies on serde_json::Value: maps each of the crate's value nodes, one
/// variant arm each, back to a JSON node.
#[verifier::external_body]
fn value_to_serde(v: &JVal) -> SerdeVal {
    match v {
        JVal::Null => SerdeVal::Null,
        JVal::Bool(b) => SerdeVal::Bool(*b),
        JVal::Int(i) => SerdeVal::Number((*i).into()),
        JVal::Num(s) => match s.parse::<serde_json::Number>() {
            Ok(n) => SerdeVal::Number(n),
            Err(_) => SerdeVal::String(s.clone()),
        },
        JVal::Str(s) => SerdeVal::String(s.clone()),
        JVal::Arr(a) => SerdeVal::Array(a.iter().map(value_to_serde).collect()),
        JVal::Obj(m) => SerdeVal::Object(
            m.iter().map(|(k, x)| (k.clone(), value_to_serde(x))).collect(),
        ),
    }
}

/// Relies on serde_json::from_str: which strings parse, and to what value,
/// depend on the characters alone; `json_parse_of` names that answer.
#[verifier::external_body]
pub(crate) fn json_parse(s: &str) -> (r: Option<JVal>)
    ensures
        r matches Some(v) ==> json_parse_of(s@) == Some(v@),
        r is None ==> json_parse_of(s@) is None,
{
    match serde_json::from_str::<serde_json::Value>(s) {
        Ok(v) => Some(value_from_serde(&v)),
        Err(_) => None,
    }
}

/// Values whose JSON text reads back as exactly themselves: no loose
/// number text (whose canonical form may differ), and object fields
/// strictly sorted by key at every level (the serializer's map re-sorts
/// keys, and duplicates collapse on re-parsing).
pub open spec fn canonical_jv(v: Jv) -> bool
    decreases v,
{
    match v {
        Jv::Num(_) => false,
        Jv::Arr(items) => canonical_seq(items),
        Jv::Obj(fields) => fields_sorted(fields) && canonical_fields(fields),
        _ => true,
    }
}

pub open spec fn canonical_seq(s: Seq<Jv>) -> bool
    decreases s,
{
    if s.len() == 0 {
        true
    } else {
        canonical_seq(s.drop_last()) && canonical_jv(s.last())
    }
}

pub open spec fn canonical_fields(s: Seq<(Seq<char>, Jv)>) -> bool
    decreases s,
{
    if s.len() == 0 {
        true
    } else {
        canonical_fields(s.drop_last()) && canonical_jv(s.last().1)
    }
}

/// Object keys strictly ascending in code-point order: sorted, and
/// therefore unique.
pub open spec fn fields_sorted(fields: Seq<(Seq<char>, Jv)>) -> bool {
    forall|i: int, j: int|
        0 <= i < j < fields.len() ==> crate::strutil::lex_lt(
            #[trigger] fields[i].0,
            #[trigger] fields[j].0,
        )
}

/// Relies on serde_json::to_string: the rendering of a value depends on
/// the value alone; `json_text_of` names that text. The compact form is
/// never empty and starts and ends with a token character, never
/// whitespace; and for canonical values (no loose number text, object
/// fields sorted by key) serde_json parses the text back to the same
/// value.
#[verifier::external_body]
pub(crate) fn json_stringify(v: &JVal) -> (r: String)
    ensures
        r@ == json_text_of(v@),
        r@.len() > 0,
        !crate::strutil::is_space_char(r@[0]),
        !crate::strutil::is_space_char(r@[r@.len() - 1]),
        canonical_jv(v@) ==> json_parse_of(r@) == Some(v@),
{
    match serde_json::to_string(&value_to_serde(v)) {
        Ok(s) => s,
        Err(_) => String::new(),
    }
}

impl JVal {
    /// True of `Str` values only.
    pub fn is_string(&self) -> (r: bool)
        ensures
            r == (self@ is Str),
    {
        match self {
            JVal::Str(_) => true,
            _ => false,
        }
    }

    /// The JSON rendering of this value.
    pub fn to_json_string(&self) -> (r: String)
        ensures
            r@ == json_text_of(self@),
    {
        json_stringify(self)
    }

    /// A structurally equal copy of this value.
    #[verifier::loop_isolation(false)]
    pub fn duplicate(&self) -> (r: JVal)
        ensures
            r@ == self@,
        decreases self,
    {
        match self {
            JVal::Null => JVal::Null,
            JVal::Bool(b) => JVal::Bool(*b),
            JVal::Int(i) => JVal::Int(*i),
            JVal::Num(s) => JVal::Num(s.clone()),
            JVal::Str(s) => JVal::Str(s.clone()),
            JVal::Arr(items) => {
                let mut out: Vec<JVal> = Vec::new();
                let mut i: usize = 0;
                while i < items.len()
                    invariant
                        i <= items@.len(),
                        out@.len() == i,
                        forall|j: int| 0 <= j < i ==> out@[j]@ == items@[j]@,
                    decreases items@.len() - i,
                {
                    proof {
                        assert(*self == JVal::Arr(*items));
                        assert(decreases_to!(*self => (*self)->Arr_0));
                        assert(decreases_to!(*items => items@));
                        assert(decreases_to!(items@ => items@[i as int]));
                    }
                    let e = items[i].duplicate();
                    out.push(e);
                    i = i + 1;
                }
                proof {
                    lemma_jv_of_seq(out@);
                    lemma_jv_of_seq(items@);
                    assert(jv_of_seq(out@) =~= jv_of_seq(items@));
                }
                JVal::Arr(out)
            },
            JVal::Obj(fields) => {
                let mut out: Vec<(String, JVal)> = Vec::new();
                let mut i: usize = 0;
                while i < fields.len()
                    invariant
                        i <= fields@.len(),
                        out@.len() == i,
                        forall|j: int| 0 <= j < i ==> out@[j].0@ == fields@[j].0@ && out@[j].1@
                            == fields@[j].1@,
                    decreases fields@.len() - i,
                {
                    proof {
                        assert(*self == JVal::Obj(*fields));
                        assert(decreases_to!(*self => (*self)->Obj_0));
                        assert(decreases_to!(*fields => fields@));
                        assert(decreases_to!(fields@ => fields@[i as int]));
                        assert(decreases_to!(fields@[i as int] => fields@[i as int].1));
                    }
                    let pair = &fields[i];
                    let e = pair.1.duplicate();
                    out.push((pair.0.clone(), e));
                    i = i + 1;
                }
                proof {
                    lemma_jv_of_fields(out@);
                    lemma_jv_of_fields(fields@);
                    assert(jv_of_fields(out@) =~= jv_of_fields(fields@));
                }
                JVal::Obj(out)
            },
        }
    }

    /// Look a key up in an `Obj` value: the last binding wins, as later
    /// fields overwrite earlier ones in a JSON object.
    #[verifier::loop_isolation(false)]
    pub fn obj_get(&self, key: &str) -> (r: Option<&JVal>)
        ensures
            match self@ {
                Jv::Obj(fields) => match r {
                    Some(v) => obj_lookup(fields, key@) == Some(v@),
                    None => obj_lookup(fields, key@) is None,
                },
                _ => r is None,
            },
    {
        match self {
            JVal::Obj(fields) => {
                let ghost gfields = jv_of_fields(fields@);
                proof {
                    lemma_jv_of_fields(fields@);
                    assert(self@ == Jv::Obj(gfields));
                }
                let mut found: Option<&JVal> = None;
                let mut i: usize = 0;
                while i < fields.len()
                    invariant
                        i <= fields@.len(),
                        gfields.len() == fields@.len(),
                        self@ == Jv::Obj(gfields),
                        forall|j: int| 0 <= j < fields@.len() ==> gfields[j] == (
                        fields@[j].0@,
                        fields@[j].1@,
                        ),
                        match found {
                            Some(v) => obj_lookup(gfields.subrange(0, i as int), key@) == Some(v@),
                            None => obj_lookup(gfields.subrange(0, i as int), key@) is None,
                        },
                    decreases fields@.len() - i,
                {
                    let ghost pre = gfields.subrange(0, i as int);
                    if str_eq(fields[i].0.as_str(), key) {
                        found = Some(&fields[i].1);
                    }
                    i = i + 1;
                    proof {
                        let cur = gfields.subrange(0, i as int);
                        assert(cur.drop_last() =~= pre);
                        assert(cur.last() == gfields[i - 1]);
                    }
                }
                proof {
                    assert(gfields.subrange(0, gfields.len() as int) =~= gfields);
                }
                found
            },
            _ => None,
        }
    }
}

/// The value bound to `key` in an object's fields, the last binding winning.
pub open spec fn obj_lookup(fields: Seq<(Seq<char>, Jv)>, key: Seq<char>) -> Option<Jv>
    decreases fields.len(),
{
    if fields.len() == 0 {
        None
    } else if fields.last().0 == key {
        Some(fields.last().1)
    } else {
        obj_lookup(fields.drop_last(), key)
    }
}

/// String equality, stated over the views.
pub fn str_eq(a: &str, b: &str) -> (r: bool)
    ensures
        r == (a@ == b@),
{
    let av = crate::strutil::chars_vec(a);
    let bv = crate::strutil::chars_vec(b);
    if av.len() != bv.len() {
        assert(a@.len() != b@.len());
        return false;
    }
    let mut i: usize = 0;
    while i < av.len()
        invariant
            i <= av@.len(),
            av@ == a@,
            bv@ == b@,
            av@.len() == bv@.len(),
            forall|j: int| 0 <= j < i ==> av@[j] == bv@[j],
        decreases av@.len() - i,
    {
        if av[i] != bv[i] {
            return false;
        }
        i = i + 1;
    }
    proof {
        assert(a@ =~= b@);
    }
    true
}

} // verus!
