//! Decoding of records out of JSON values: looking fields up, reading them
//! strictly, and collecting the elements of an array.

use crate::error::DecodeError;
use crate::error::Fault;
use crate::error::Field;
use crate::json::document;
use crate::json::parse;
use crate::json::JsonModel;
use crate::json::JsonValue;
use crate::json::ReadFault;
use vstd::prelude::*;

verus! {

/// The key under which an element holds `field`.
pub open spec fn key_of(field: Field) -> Seq<char> {
    match field {
        Field::Number => "number"@,
        Field::Url => "url"@,
        Field::Title => "title"@,
        Field::HtmlUrl => "html_url"@,
        Field::Labels => "labels"@,
    }
}

/// The value of the first entry of `fields` under `key`.
pub open spec fn lookup(fields: Seq<(Seq<char>, JsonModel)>, key: Seq<char>) -> Option<JsonModel>
    decreases fields.len(),
{
    if fields.len() == 0 {
        None
    } else if fields[0].0 == key {
        Some(fields[0].1)
    } else {
        lookup(fields.drop_first(), key)
    }
}

/// The text under `key`: there and a string, or the fault that `missing` or `wrong` names.
pub open spec fn text_at<E>(
    fields: Seq<(Seq<char>, JsonModel)>,
    key: Seq<char>,
    missing: E,
    wrong: E,
) -> Result<Seq<char>, E> {
    match lookup(fields, key) {
        None => Err(missing),
        Some(JsonModel::Text(s)) => Ok(s),
        Some(_) => Err(wrong),
    }
}

/// The number under `key`: there and a whole number that is not negative, or
/// the fault that `missing` or `wrong` names.
pub open spec fn number_at<E>(
    fields: Seq<(Seq<char>, JsonModel)>,
    key: Seq<char>,
    missing: E,
    wrong: E,
) -> Result<u64, E> {
    match lookup(fields, key) {
        None => Err(missing),
        Some(JsonModel::U64(n)) => Ok(n),
        Some(JsonModel::I64(n)) => if n >= 0 {
            Ok(n as u64)
        } else {
            Err(wrong)
        },
        Some(_) => Err(wrong),
    }
}

/// Every item decoded by `one`, in order; or, where an item fails, the place
/// and the fault of the first that does.
pub open spec fn collect<A, M, E>(items: Seq<A>, one: spec_fn(A) -> Result<M, E>) -> Result<
    Seq<M>,
    (int, E),
>
    decreases items.len(),
{
    if items.len() == 0 {
        Ok(Seq::empty())
    } else {
        match collect(items.drop_last(), one) {
            Err(e) => Err(e),
            Ok(done) => match one(items.last()) {
                Ok(x) => Ok(done.push(x)),
                Err(fault) => Err((items.len() - 1, fault)),
            },
        }
    }
}

/// A failure among the first items is the failure of the whole run.
pub proof fn lemma_collect_failure_stays<A, M, E>(
    items: Seq<A>,
    one: spec_fn(A) -> Result<M, E>,
    n: int,
)
    requires
        0 <= n <= items.len(),
        collect(items.take(n), one) is Err,
    ensures
        collect(items, one) == collect(items.take(n), one),
    decreases items.len(),
{
    if n < items.len() {
        assert(items.drop_last().take(n) =~= items.take(n));
        lemma_collect_failure_stays(items.drop_last(), one, n);
    } else {
        assert(items.take(n) =~= items);
    }
}

/// Where every item decodes, the run is the items decoded one by one; where
/// one does not, the run fails at the first such item.
pub proof fn lemma_collect_all_or_first<A, M, E>(items: Seq<A>, one: spec_fn(A) -> Result<M, E>)
    ensures
        match collect(items, one) {
            Ok(out) => {
                &&& out.len() == items.len()
                &&& forall|i: int| 0 <= i < items.len() ==> one(#[trigger] items[i]) == Ok::<M, E>(out[i])
            },
            Err((at, fault)) => {
                &&& 0 <= at < items.len()
                &&& one(items[at]) == Err::<M, E>(fault)
                &&& forall|i: int| 0 <= i < at ==> one(#[trigger] items[i]) is Ok
            },
        },
    decreases items.len(),
{
    if items.len() > 0 {
        lemma_collect_all_or_first(items.drop_last(), one);
        match collect(items.drop_last(), one) {
            Ok(done) => {
                assert forall|i: int| 0 <= i < items.len() - 1 implies one(#[trigger] items[i])
                    == Ok::<M, E>(done[i]) by {
                    assert(items[i] == items.drop_last()[i]);
                }
            },
            Err((at, fault)) => {
                assert(items[at] == items.drop_last()[at]);
                assert forall|i: int| 0 <= i < at implies one(#[trigger] items[i]) is Ok by {
                    assert(items[i] == items.drop_last()[i]);
                }
            },
        }
    }
}

/// Runs whose items decode alike, one by one, decode alike as a whole.
pub proof fn lemma_collect_pointwise<A, M, E>(
    a: Seq<A>,
    b: Seq<A>,
    one: spec_fn(A) -> Result<M, E>,
)
    requires
        a.len() == b.len(),
        forall|i: int| 0 <= i < a.len() ==> one(#[trigger] a[i]) == one(b[i]),
    ensures
        collect(a, one) == collect(b, one),
    decreases a.len(),
{
    if a.len() > 0 {
        assert forall|i: int| 0 <= i < a.drop_last().len() implies one(
            #[trigger] a.drop_last()[i],
        ) == one(b.drop_last()[i]) by {
            assert(a.drop_last()[i] == a[i]);
            assert(b.drop_last()[i] == b[i]);
        }
        lemma_collect_pointwise(a.drop_last(), b.drop_last(), one);
        assert(one(a[a.len() - 1]) == one(b[a.len() - 1]));
    }
}

/// The entries of an object as the decoders see them.
pub open spec fn entries(fields: Seq<(String, JsonValue)>) -> Seq<(Seq<char>, JsonModel)> {
    Seq::new(fields.len(), |i: int| (fields[i].0@, fields[i].1@))
}

/// The items of an array as the decoders see them.
pub open spec fn models(items: Seq<JsonValue>) -> Seq<JsonModel> {
    Seq::new(items.len(), |i: int| items[i]@)
}

/// What an array value holds, seen through `models`.
pub proof fn lemma_array_view(items: Vec<JsonValue>)
    ensures
        JsonValue::Array(items)@ == JsonModel::Array(models(items@)),
{
    assert(JsonValue::Array(items)@->Array_0 =~= models(items@));
}

/// What an object value holds, seen through `entries`.
pub proof fn lemma_object_view(fields: Vec<(String, JsonValue)>)
    ensures
        JsonValue::Object(fields)@ == JsonModel::Object(entries(fields@)),
{
    assert(JsonValue::Object(fields)@->Object_0 =~= entries(fields@));
}

/// Looks `key` up among the entries of an object: the first entry under it.
pub fn find<'a>(fields: &'a Vec<(String, JsonValue)>, key: &str) -> (r: Option<&'a JsonValue>)
    ensures
        match r {
            Some(v) => lookup(entries(fields@), key@) == Some(v@),
            None => lookup(entries(fields@), key@).is_none(),
        },
{
    let wanted = String::from_str(key);
    let mut i: usize = 0;
    assert(entries(fields@).skip(0) =~= entries(fields@));
    while i < fields.len()
        invariant
            i <= fields.len(),
            wanted@ == key@,
            lookup(entries(fields@), key@) == lookup(entries(fields@).skip(i as int), key@),
        decreases fields.len() - i,
    {
        proof {
            let rest = entries(fields@).skip(i as int);
            assert(rest[0] == entries(fields@)[i as int]);
            assert(rest.drop_first() =~= entries(fields@).skip(i + 1));
        }
        if fields[i].0 == wanted {
            return Some(&fields[i].1);
        }
        i += 1;
    }
    None
}

/// Reads the string under `key`.
pub fn read_text<E>(fields: &Vec<(String, JsonValue)>, key: &str, missing: E, wrong: E) -> (r:
    Result<String, E>)
    ensures
        match r {
            Ok(s) => text_at(entries(fields@), key@, missing, wrong) == Ok::<Seq<char>, E>(s@),
            Err(e) => text_at(entries(fields@), key@, missing, wrong) == Err::<Seq<char>, E>(e),
        },
{
    match find(fields, key) {
        None => Err(missing),
        Some(JsonValue::Text(s)) => Ok(s.clone()),
        Some(_) => Err(wrong),
    }
}

/// Reads the number under `key`.
pub fn read_number<E>(fields: &Vec<(String, JsonValue)>, key: &str, missing: E, wrong: E) -> (r:
    Result<u64, E>)
    ensures
        r == number_at(entries(fields@), key@, missing, wrong),
{
    match find(fields, key) {
        None => Err(missing),
        Some(JsonValue::U64(n)) => Ok(*n),
        Some(JsonValue::I64(n)) => if *n >= 0 {
            Ok(*n as u64)
        } else {
            Err(wrong)
        },
        Some(_) => Err(wrong),
    }
}

/// An entry under another key does not change what stands under `key`.
pub proof fn lemma_lookup_skips_other_key(
    fields: Seq<(Seq<char>, JsonModel)>,
    at: int,
    entry: (Seq<char>, JsonModel),
    key: Seq<char>,
)
    requires
        0 <= at <= fields.len(),
        entry.0 != key,
    ensures
        lookup(fields.insert(at, entry), key) == lookup(fields, key),
    decreases at,
{
    let wider = fields.insert(at, entry);
    if at == 0 {
        assert(wider.drop_first() =~= fields);
    } else {
        assert(wider[0] == fields[0]);
        assert(wider.drop_first() =~= fields.drop_first().insert(at - 1, entry));
        lemma_lookup_skips_other_key(fields.drop_first(), at - 1, entry, key);
    }
}

/// An element that is no record fails the page it stands in.
pub proof fn lemma_page_fails_with_element<T: Record>(items: Seq<JsonModel>, at: int)
    requires
        0 <= at < items.len(),
        T::from_json(items[at]) is Err,
    ensures
        page_from::<T>(JsonModel::Array(items)) is Err,
{
    lemma_collect_all_or_first(items, decoder::<T>());
}

/// A page is read out of what its elements decode to, and out of nothing
/// else: pages whose elements decode alike, one by one, are the same page.
pub proof fn lemma_page_reads_records_only<T: Record>(a: Seq<JsonModel>, b: Seq<JsonModel>)
    requires
        a.len() == b.len(),
        forall|i: int| 0 <= i < a.len() ==> T::from_json(#[trigger] a[i]) == T::from_json(b[i]),
    ensures
        page_from::<T>(JsonModel::Array(a)) == page_from::<T>(JsonModel::Array(b)),
{
    lemma_collect_pointwise(a, b, decoder::<T>());
}

/// A page whose elements are all records holds them all, in their order.
pub proof fn lemma_page_keeps_order<T: Record>(items: Seq<JsonModel>)
    requires
        forall|i: int| 0 <= i < items.len() ==> T::from_json(#[trigger] items[i]) is Ok,
    ensures
        page_from::<T>(JsonModel::Array(items)) matches Ok(page) && page.len() == items.len()
            && forall|i: int|
            0 <= i < items.len() ==> T::from_json(#[trigger] items[i]) == Ok::<T::V, Fault>(
                page[i],
            ),
{
    lemma_collect_all_or_first(items, decoder::<T>());
    if collect(items, decoder::<T>()) is Err {
        let at = collect(items, decoder::<T>())->Err_0.0;
        assert(T::from_json(items[at]) is Ok);
    }
}

/// A record that can be decoded out of one element of a page.
pub trait Record: Sized + View {
    /// What `v` decodes to: the record, or the first fault in the order of the fields.
    spec fn from_json(v: JsonModel) -> Result<Self::V, Fault>;

    /// Decodes one record. Fields that the record does not know are passed
    /// over; each field that it asks for must be there, with a value of its type.
    fn decode(v: &JsonValue) -> (r: Result<Self, Fault>)
        ensures
            match r {
                Ok(x) => Self::from_json(v@) == Ok::<Self::V, Fault>(x@),
                Err(fault) => Self::from_json(v@) == Err::<Self::V, Fault>(fault),
            },
    ;
}

/// The decoding of one element, as a function.
pub open spec fn decoder<T: Record>() -> spec_fn(JsonModel) -> Result<T::V, Fault> {
    |v: JsonModel| T::from_json(v)
}

/// The page that a document holds: each element of its array as a record.
pub open spec fn page_from<T: Record>(doc: JsonModel) -> Result<Seq<T::V>, DecodeError> {
    match doc {
        JsonModel::Array(items) => match collect(items, decoder::<T>()) {
            Ok(page) => Ok(page),
            Err((at, fault)) => Err(DecodeError::Element { index: at as usize, fault }),
        },
        _ => Err(DecodeError::NotAnArray),
    }
}

/// The records of `items` as mathematical values.
pub open spec fn views<T: View>(items: Seq<T>) -> Seq<T::V> {
    Seq::new(items.len(), |i: int| items[i]@)
}

/// Decodes a page out of a document. One element that is no record fails the
/// whole page: nothing is skipped.
pub fn decode_page<T: Record>(doc: &JsonValue) -> (r: Result<Vec<T>, DecodeError>)
    ensures
        match r {
            Ok(page) => page_from::<T>(doc@) == Ok::<Seq<T::V>, DecodeError>(views(page@)),
            Err(e) => page_from::<T>(doc@) == Err::<Seq<T::V>, DecodeError>(e),
        },
{
    match doc {
        JsonValue::Array(items) => {
            let ghost one = decoder::<T>();
            let ghost all = models(items@);
            proof {
                lemma_array_view(*items);
            }
            let mut page: Vec<T> = Vec::new();
            let mut i: usize = 0;
            assert(all.take(0) =~= Seq::empty());
            assert(views(page@) =~= Seq::empty());
            while i < items.len()
                invariant
                    i <= items.len(),
                    all == models(items@),
                    one == decoder::<T>(),
                    doc@ == JsonModel::Array(all),
                    collect(all.take(i as int), one) == Ok::<Seq<T::V>, (int, Fault)>(
                        views(page@),
                    ),
                decreases items.len() - i,
            {
                let ghost before = views(page@);
                proof {
                    assert(all.take(i + 1).drop_last() =~= all.take(i as int));
                    assert(all.take(i + 1).last() == items@[i as int]@);
                }
                match T::decode(&items[i]) {
                    Ok(x) => {
                        page.push(x);
                        assert(views(page@) =~= before.push(x@));
                    },
                    Err(fault) => {
                        proof {
                            lemma_collect_failure_stays(all, one, i + 1);
                        }
                        return Err(DecodeError::Element { index: i, fault });
                    },
                }
                i += 1;
            }
            assert(all.take(i as int) =~= all);
            Ok(page)
        },
        _ => Err(DecodeError::NotAnArray),
    }
}

/// The page that a response body holds.
pub open spec fn body_page<T: Record>(body: Seq<u8>) -> Result<Seq<T::V>, DecodeError> {
    match document(body) {
        Err(ReadFault::BeyondLimits) => Err(DecodeError::BeyondLimits),
        Err(ReadFault::Syntax) => Err(DecodeError::Syntax),
        Ok(doc) => page_from::<T>(doc),
    }
}

/// Decodes the body of a response into a page of records.
pub fn decode_body<T: Record>(body: &[u8]) -> (r: Result<Vec<T>, DecodeError>)
    ensures
        match r {
            Ok(page) => body_page::<T>(body@) == Ok::<Seq<T::V>, DecodeError>(views(page@)),
            Err(e) => body_page::<T>(body@) == Err::<Seq<T::V>, DecodeError>(e),
        },
{
    match parse(body) {
        Err(ReadFault::BeyondLimits) => Err(DecodeError::BeyondLimits),
        Err(ReadFault::Syntax) => Err(DecodeError::Syntax),
        Ok(doc) => decode_page(&doc),
    }
}

} // verus!
