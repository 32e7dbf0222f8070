use vstd::prelude::*;

verus! {

/// A JSON document as a mathematical value. Strings, object keys and number
/// lexemes are sequences of UTF-8 bytes.
pub enum Json {
    Null,
    Bool(bool),
    Number(Seq<u8>),
    Str(Seq<u8>),
    Array(Seq<Json>),
    Object(Seq<(Seq<u8>, Json)>),
}

/// A JSON document in memory.
pub enum JsonValue {
    Null,
    Bool(bool),
    Number(Vec<u8>),
    Str(Vec<u8>),
    Array(Vec<JsonValue>),
    Object(Vec<(Vec<u8>, JsonValue)>),
}

impl View for JsonValue {
    type V = Json;

    open spec fn view(&self) -> Json
        decreases self,
    {
        match self {
            JsonValue::Null => Json::Null,
            JsonValue::Bool(b) => Json::Bool(*b),
            JsonValue::Number(n) => Json::Number(n@),
            JsonValue::Str(s) => Json::Str(s@),
            JsonValue::Array(a) => Json::Array(
                Seq::new(a@.len(), |i: int| if 0 <= i < a@.len() { a@[i].view() } else { Json::Null }),
            ),
            JsonValue::Object(o) => Json::Object(
                Seq::new(
                    o@.len(),
                    |i: int| (o@[i].0@, if 0 <= i < o@.len() { o@[i].1.view() } else { Json::Null }),
                ),
            ),
        }
    }
}

/// The value stored under the first entry of `fields` whose key is `key`.
pub open spec fn lookup(fields: Seq<(Seq<u8>, Json)>, key: Seq<u8>) -> Option<Json>
    decreases fields.len(),
{
    if fields.len() == 0 {
        None
    } else if fields[0].0 == key {
        Some(fields[0].1)
    } else {
        lookup(fields.drop_first(), key)
    }
}

/// Whether two byte strings are the same.
pub fn same_bytes(a: &[u8], b: &[u8]) -> (r: bool)
    ensures
        r == (a@ == b@),
{
    if a.len() != b.len() {
        return false;
    }
    let mut i: usize = 0;
    while i < a.len()
        invariant
            a.len() == b.len(),
            i <= a.len(),
            forall|j: int| 0 <= j < i ==> a@[j] == b@[j],
        decreases a.len() - i,
    {
        if a[i] != b[i] {
            return false;
        }
        i += 1;
    }
    assert(a@ =~= b@);
    true
}

/// The models of an array's items, in order.
pub open spec fn items_model(items: Seq<JsonValue>) -> Seq<Json> {
    Seq::new(items.len(), |i: int| items[i]@)
}

/// The models of an object's entries, in order.
pub open spec fn entries_model(entries: Seq<(Vec<u8>, JsonValue)>) -> Seq<(Seq<u8>, Json)> {
    Seq::new(entries.len(), |i: int| (entries[i].0@, entries[i].1@))
}

/// An array's model is the sequence of its items' models.
pub proof fn lemma_array_view(items: Vec<JsonValue>)
    ensures
        JsonValue::Array(items)@ == Json::Array(items_model(items@)),
{
    assert(JsonValue::Array(items)@->Array_0 =~= items_model(items@));
}

/// An object's model is the sequence of its entries' models.
pub proof fn lemma_object_view(entries: Vec<(Vec<u8>, JsonValue)>)
    ensures
        JsonValue::Object(entries)@ == Json::Object(entries_model(entries@)),
{
    let a = JsonValue::Object(entries)@->Object_0;
    let b = entries_model(entries@);
    assert(a.len() == b.len());
    assert forall|i: int| 0 <= i < a.len() implies a[i] == b[i] by {
        assert(a[i].0 == b[i].0);
        assert(a[i].1 == b[i].1);
    }
    assert(a =~= b);
}

impl JsonValue {
    /// Looks a key up in an object's entries; the first entry with that key wins.
    pub fn get<'a>(entries: &'a Vec<(Vec<u8>, JsonValue)>, key: &[u8]) -> (r: Option<&'a JsonValue>)
        ensures
            match r {
                Some(v) => lookup(entries_model(entries@), key@) == Some(v@),
                None => lookup(entries_model(entries@), key@) is None,
            },
    {
        let mut i: usize = 0;
        let ghost all = entries_model(entries@);
        assert(all.skip(0) =~= all);
        while i < entries.len()
            invariant
                i <= entries.len(),
                all == entries_model(entries@),
                lookup(all, key@) == lookup(all.skip(i as int), key@),
            decreases entries.len() - i,
        {
            assert(all.skip(i as int)[0] == all[i as int]);
            assert(all.skip(i as int).drop_first() =~= all.skip(i as int + 1));
            if same_bytes(entries[i].0.as_slice(), key) {
                return Some(&entries[i].1);
            }
            i += 1;
        }
        None
    }
}

}
