//! JSON values: what the cluster's and the model provider's APIs speak.
use vstd::prelude::*;

use crate::sample::Sample;
use crate::text::text_eq;

verus! {

/// A JSON number: a whole number that fits in 64 bits, or a binary64 value.
#[derive(Debug, Clone, Copy, PartialEq, Eq)]
pub enum JsonNumber {
    Unsigned(u64),
    /// A whole number below zero.
    Negative(i64),
    Float(Sample),
}

/// A JSON value. An object is a list of members; of two members with one name the later counts.
#[derive(Debug)]
pub enum Json {
    Null,
    Bool(bool),
    Number(JsonNumber),
    Str(String),
    Array(Vec<Json>),
    Object(Vec<(String, Json)>),
}

/// What a JSON value stands for.
#[verifier::ext_equal]
pub ghost enum JsonView {
    Null,
    Bool(bool),
    Whole(int),
    /// A binary64 number, by its ordering key.
    Float(int),
    Str(Seq<char>),
    Array(Seq<JsonView>),
    Object(Map<Seq<char>, JsonView>),
}

/// What a JSON number stands for.
pub open spec fn number_view(n: JsonNumber) -> JsonView {
    match n {
        JsonNumber::Unsigned(u) => JsonView::Whole(u as int),
        JsonNumber::Negative(i) => JsonView::Whole(i as int),
        JsonNumber::Float(f) => JsonView::Float(f.key()),
    }
}

/// What a JSON value stands for.
pub open spec fn json_view(j: Json) -> JsonView
    decreases j,
{
    match j {
        Json::Null => JsonView::Null,
        Json::Bool(b) => JsonView::Bool(b),
        Json::Number(n) => number_view(n),
        Json::Str(s) => JsonView::Str(s@),
        Json::Array(items) => JsonView::Array(items_view(items@)),
        Json::Object(members) => JsonView::Object(members_view(members@)),
    }
}

/// What the items of an array stand for.
pub open spec fn items_view(items: Seq<Json>) -> Seq<JsonView>
    decreases items,
{
    if items.len() == 0 {
        Seq::empty()
    } else {
        items_view(items.drop_last()).push(json_view(items.last()))
    }
}

/// What the members of an object stand for.
pub open spec fn members_view(members: Seq<(String, Json)>) -> Map<Seq<char>, JsonView>
    decreases members,
{
    if members.len() == 0 {
        Map::empty()
    } else {
        members_view(members.drop_last()).insert(members.last().0@, json_view(members.last().1))
    }
}

impl View for Json {
    type V = JsonView;

    open spec fn view(&self) -> JsonView {
        json_view(*self)
    }
}

/// The items of an array stand one for one.
pub proof fn lemma_items(items: Seq<Json>)
    ensures
        items_view(items).len() == items.len(),
        forall|i: int| 0 <= i < items.len() ==> #[trigger] items_view(items)[i] == items[i]@,
    decreases items.len(),
{
    if items.len() > 0 {
        lemma_items(items.drop_last());
        assert forall|i: int| 0 <= i < items.len() implies #[trigger] items_view(items)[i]
            == items[i]@ by {
            if i < items.len() - 1 {
                assert(items.drop_last()[i] == items[i]);
            }
        }
    }
}

/// The member `name` of a value: `None` where it is no object or has no such member.
pub open spec fn member(v: JsonView, name: Seq<char>) -> Option<JsonView> {
    match v {
        JsonView::Object(m) => if m.dom().contains(name) {
            Some(m[name])
        } else {
            None
        },
        _ => None,
    }
}

/// A member of an optional value.
pub open spec fn member_of(v: Option<JsonView>, name: Seq<char>) -> Option<JsonView> {
    match v {
        Some(v) => member(v, name),
        None => None,
    }
}

/// What an optional value stands for.
pub open spec fn opt_view(v: Option<&Json>) -> Option<JsonView> {
    match v {
        Some(j) => Some(j@),
        None => None,
    }
}

/// The text of an optional value, where it is one.
pub open spec fn text_of(v: Option<JsonView>) -> Option<Seq<char>> {
    match v {
        Some(JsonView::Str(s)) => Some(s),
        _ => None,
    }
}

/// The whole number of an optional value, where it is one that fits in an `i64`.
pub open spec fn i64_of(v: Option<JsonView>) -> Option<i64> {
    match v {
        Some(JsonView::Whole(n)) => if i64::MIN <= n <= i64::MAX {
            Some(n as i64)
        } else {
            None
        },
        _ => None,
    }
}

proof fn lemma_member_names(members: Seq<(String, Json)>, name: Seq<char>)
    ensures
        members_view(members).dom().contains(name) <==> exists|i: int|
            0 <= i < members.len() && #[trigger] members[i].0@ == name,
    decreases members.len(),
{
    if members.len() > 0 {
        let rest = members.drop_last();
        lemma_member_names(rest, name);
        if members_view(members).dom().contains(name) {
            if members.last().0@ == name {
                assert(members[members.len() - 1].0@ == name);
            } else {
                let i = choose|i: int| 0 <= i < rest.len() && #[trigger] rest[i].0@ == name;
                assert(members[i].0@ == name);
            }
        }
        if exists|i: int| 0 <= i < members.len() && #[trigger] members[i].0@ == name {
            let i = choose|i: int| 0 <= i < members.len() && #[trigger] members[i].0@ == name;
            if i < rest.len() {
                assert(rest[i].0@ == name);
            }
        }
    }
}

/// The position of the member that counts for `name`.
fn find(members: &Vec<(String, Json)>, name: &str) -> (r: Option<usize>)
    ensures
        match r {
            Some(i) => i < members@.len() && members_view(members@).dom().contains(name@)
                && members_view(members@)[name@] == members@[i as int].1@,
            None => !members_view(members@).dom().contains(name@),
        },
{
    let mut n: usize = members.len();
    assert(members@.take(n as int) == members@);
    while n > 0
        invariant
            n <= members@.len(),
            members_view(members@.take(n as int)).dom().contains(name@) == members_view(
                members@,
            ).dom().contains(name@),
            members_view(members@.take(n as int)).dom().contains(name@) ==> members_view(
                members@.take(n as int),
            )[name@] == members_view(members@)[name@],
        decreases n,
    {
        assert(members@.take(n as int).drop_last() == members@.take(n - 1));
        assert(members@.take(n as int).last() == members@[n - 1]);
        if text_eq(members[n - 1].0.as_str(), name) {
            return Some(n - 1);
        }
        n -= 1;
    }
    None
}

fn same_number(a: JsonNumber, b: JsonNumber) -> (r: bool)
    ensures
        r == (number_view(a) == number_view(b)),
{
    match (a, b) {
        (JsonNumber::Unsigned(x), JsonNumber::Unsigned(y)) => x == y,
        (JsonNumber::Negative(x), JsonNumber::Negative(y)) => x == y,
        (JsonNumber::Unsigned(x), JsonNumber::Negative(y)) => x as i128 == y as i128,
        (JsonNumber::Negative(x), JsonNumber::Unsigned(y)) => x as i128 == y as i128,
        (JsonNumber::Float(x), JsonNumber::Float(y)) => x.same_key(y),
        _ => false,
    }
}

impl Json {
    /// Whether two values stand for the same: the order of an object's members does not matter.
    pub fn same(&self, other: &Json) -> (r: bool)
        ensures
            r == (self@ == other@),
        decreases self,
    {
        match (self, other) {
            (Json::Null, Json::Null) => true,
            (Json::Bool(a), Json::Bool(b)) => *a == *b,
            (Json::Number(a), Json::Number(b)) => same_number(*a, *b),
            (Json::Str(a), Json::Str(b)) => text_eq(a.as_str(), b.as_str()),
            (Json::Array(a), Json::Array(b)) => {
                proof {
                    lemma_items(a@);
                    lemma_items(b@);
                }
                if a.len() != b.len() {
                    return false;
                }
                let mut i: usize = 0;
                while i < a.len()
                    invariant
                        i <= a@.len(),
                        a@.len() == b@.len(),
                        *self == Json::Array(*a),
                        *other == Json::Array(*b),
                        forall|j: int| 0 <= j < i ==> #[trigger] a@[j]@ == b@[j]@,
                    decreases a@.len() - i,
                {
                    proof {
                        lemma_items(a@);
                        lemma_items(b@);
                    }
                    assert(decreases_to!(*self => self->Array_0));
                    assert(decreases_to!(*a => a@));
                    assert(decreases_to!(a@ => a@[i as int]));
                    if !a[i].same(&b[i]) {
                        assert(items_view(a@)[i as int] != items_view(b@)[i as int]);
                        return false;
                    }
                    i += 1;
                }
                proof {
                    lemma_items(a@);
                    lemma_items(b@);
                }
                assert(items_view(a@) =~= items_view(b@));
                true
            },
            (Json::Object(a), Json::Object(b)) => {
                let mut i: usize = 0;
                while i < a.len()
                    invariant
                        i <= a@.len(),
                        *self == Json::Object(*a),
                        *other == Json::Object(*b),
                        forall|j: int|
                            0 <= j < i ==> members_view(b@).dom().contains(#[trigger] a@[j].0@)
                                && members_view(b@)[a@[j].0@] == members_view(a@)[a@[j].0@],
                    decreases a@.len() - i,
                {
                    proof {
                        lemma_member_names(a@, a@[i as int].0@);
                    }
                    let name = a[i].0.as_str();
                    match (find(a, name), find(b, name)) {
                        (Some(x), Some(y)) => {
                            assert(decreases_to!(*self => self->Object_0));
                            assert(decreases_to!(*a => a@));
                            assert(decreases_to!(a@ => a@[x as int]));
                            assert(decreases_to!(a@[x as int] => a@[x as int].1));
                            if !a[x].1.same(&b[y].1) {
                                return false;
                            }
                        },
                        _ => {
                            return false;
                        },
                    }
                    i += 1;
                }
                let mut i: usize = 0;
                while i < b.len()
                    invariant
                        i <= b@.len(),
                        *self == Json::Object(*a),
                        *other == Json::Object(*b),
                        forall|j: int|
                            0 <= j < i ==> members_view(a@).dom().contains(#[trigger] b@[j].0@),
                    decreases b@.len() - i,
                {
                    proof {
                        lemma_member_names(b@, b@[i as int].0@);
                    }
                    if find(a, b[i].0.as_str()).is_none() {
                        return false;
                    }
                    i += 1;
                }
                assert forall|k: Seq<char>| #[trigger]
                    members_view(a@).dom().contains(k) == members_view(b@).dom().contains(k) by {
                    lemma_member_names(a@, k);
                    lemma_member_names(b@, k);
                }
                assert forall|k: Seq<char>|
                    members_view(a@).dom().contains(k) implies #[trigger] members_view(a@)[k]
                    == members_view(b@)[k] by {
                    lemma_member_names(a@, k);
                }
                assert(members_view(a@) =~= members_view(b@));
                true
            },
            _ => false,
        }
    }

    /// The member `name`, where this is an object that has it.
    pub fn get(&self, name: &str) -> (r: Option<&Json>)
        ensures
            opt_view(r) == member(self@, name@),
    {
        match self {
            Json::Object(members) => match find(members, name) {
                Some(i) => Some(&members[i].1),
                None => None,
            },
            _ => None,
        }
    }

    /// The text, where this is one.
    pub fn as_str(&self) -> (r: Option<&String>)
        ensures
            match r {
                Some(s) => self@ == JsonView::Str(s@),
                None => !(self@ is Str),
            },
    {
        match self {
            Json::Str(s) => Some(s),
            _ => None,
        }
    }

    /// The items, where this is an array.
    pub fn as_array(&self) -> (r: Option<&Vec<Json>>)
        ensures
            match r {
                Some(items) => self@ == JsonView::Array(items_view(items@)),
                None => !(self@ is Array),
            },
    {
        match self {
            Json::Array(items) => Some(items),
            _ => None,
        }
    }

    /// The whole number, where this is one that fits in an `i64`.
    pub fn as_i64(&self) -> (r: Option<i64>)
        ensures
            r == i64_of(Some(self@)),
    {
        match self {
            Json::Number(JsonNumber::Unsigned(u)) => if *u <= i64::MAX as u64 {
                Some(*u as i64)
            } else {
                None
            },
            Json::Number(JsonNumber::Negative(i)) => Some(*i),
            _ => None,
        }
    }

    /// The whole number `n` as a value.
    pub fn whole(n: i64) -> (j: Json)
        ensures
            j@ == JsonView::Whole(n as int),
    {
        if n < 0 {
            Json::Number(JsonNumber::Negative(n))
        } else {
            Json::Number(JsonNumber::Unsigned(n as u64))
        }
    }

    /// A text as a value.
    pub fn text(s: &str) -> (j: Json)
        ensures
            j@ == JsonView::Str(s@),
    {
        Json::Str(s.to_owned())
    }

    /// A value that stands for the same.
    pub fn copy(&self) -> (j: Json)
        ensures
            j@ == self@,
        decreases self,
    {
        match self {
            Json::Null => Json::Null,
            Json::Bool(b) => Json::Bool(*b),
            Json::Number(n) => Json::Number(*n),
            Json::Str(s) => Json::Str(s.clone()),
            Json::Array(items) => {
                let mut out: Vec<Json> = Vec::new();
                let mut i: usize = 0;
                while i < items.len()
                    invariant
                        i <= items@.len(),
                        items_view(out@) == items_view(items@.take(i as int)),
                        *self == Json::Array(*items),
                    decreases items@.len() - i,
                {
                    let ghost before = out@;
                    assert(decreases_to!(*self => self->Array_0));
                    assert(decreases_to!(*items => items@));
                    assert(decreases_to!(items@ => items@[i as int]));
                    let item = items[i].copy();
                    assert(items@.take(i + 1).drop_last() == items@.take(i as int));
                    out.push(item);
                    assert(out@.drop_last() == before);
                    i += 1;
                }
                assert(items@.take(items@.len() as int) == items@);
                Json::Array(out)
            },
            Json::Object(members) => {
                let mut out: Vec<(String, Json)> = Vec::new();
                let mut i: usize = 0;
                while i < members.len()
                    invariant
                        i <= members@.len(),
                        members_view(out@) == members_view(members@.take(i as int)),
                        *self == Json::Object(*members),
                    decreases members@.len() - i,
                {
                    let ghost before = out@;
                    assert(decreases_to!(*self => self->Object_0));
                    assert(decreases_to!(*members => members@));
                    assert(decreases_to!(members@ => members@[i as int]));
                    assert(decreases_to!(members@[i as int] => members@[i as int].1));
                    let value = members[i].1.copy();
                    assert(members@.take(i + 1).drop_last() == members@.take(i as int));
                    out.push((members[i].0.clone(), value));
                    assert(out@.drop_last() == before);
                    i += 1;
                }
                assert(members@.take(members@.len() as int) == members@);
                Json::Object(out)
            },
        }
    }
}

/// The member `name` of an optional value.
pub fn member_in<'a>(j: Option<&'a Json>, name: &str) -> (r: Option<&'a Json>)
    ensures
        opt_view(r) == member_of(opt_view(j), name@),
{
    match j {
        Some(j) => j.get(name),
        None => None,
    }
}

/// Adds a member to an object under construction.
pub fn put_member(members: &mut Vec<(String, Json)>, name: &str, value: Json)
    ensures
        members_view(final(members)@) == members_view(old(members)@).insert(name@, value@),
{
    members.push((name.to_owned(), value));
    assert(members@.drop_last() == old(members)@);
}

/// A member is the value under its name in an object, and absent elsewhere; texts and whole numbers
/// are told from other values.
pub proof fn law_members_are_looked_up(members: Map<Seq<char>, JsonView>, name: Seq<char>, n: int)
    ensures
        members.dom().contains(name) ==> member(JsonView::Object(members), name) == Some(
            members[name],
        ),
        !members.dom().contains(name) ==> member(JsonView::Object(members), name) is None,
        member(JsonView::Str(name), name) is None,
        member(JsonView::Null, name) is None,
        member_of(None, name) is None,
        member_of(Some(JsonView::Object(members)), name) == member(JsonView::Object(members), name),
        text_of(Some(JsonView::Str(name))) == Some(name),
        text_of(Some(JsonView::Whole(n))) is None,
        text_of(None) is None,
        i64::MIN <= n <= i64::MAX ==> i64_of(Some(JsonView::Whole(n))) == Some(n as i64),
        n < i64::MIN || n > i64::MAX ==> i64_of(Some(JsonView::Whole(n))) is None,
        i64_of(Some(JsonView::Str(name))) is None,
{
}

/// The members of two lists of members together are those of both, and of two members with one
/// name the one in the later list counts.
pub proof fn law_later_members_win(a: Seq<(String, Json)>, b: Seq<(String, Json)>)
    ensures
        members_view(a + b) == members_view(a).union_prefer_right(members_view(b)),
        members_view(Seq::<(String, Json)>::empty()) == Map::<Seq<char>, JsonView>::empty(),
        forall|name: String, value: Json| #[trigger]
            members_view(seq![(name, value)]) == map![name@ => value@],
    decreases b.len(),
{
    if b.len() == 0 {
        assert(a + b =~= a);
        assert(members_view(a).union_prefer_right(members_view(b)) =~= members_view(a));
    } else {
        law_later_members_win(a, b.drop_last());
        assert((a + b).drop_last() =~= a + b.drop_last());
        assert(members_view(a + b) =~= members_view(a).union_prefer_right(members_view(b)));
    }
    assert forall|name: String, value: Json| #[trigger]
        members_view(seq![(name, value)]) == map![name@ => value@] by {
        let one = seq![(name, value)];
        assert(one.drop_last() =~= Seq::<(String, Json)>::empty());
        assert(members_view(one.drop_last()) == Map::<Seq<char>, JsonView>::empty());
        assert(members_view(one) =~= map![name@ => value@]);
    }
}

} // verus!
