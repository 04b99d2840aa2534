//! JSON values as the library reads and edits them.

use crate::text::owned;
use crate::text::same_text;
use vstd::prelude::*;

verus! {

/// A JSON value. An object keeps its members in order; a number keeps its text.
#[derive(Debug, PartialEq, Eq)]
pub enum Json {
    Null,
    Bool(bool),
    Number(String),
    Text(String),
    List(Vec<Json>),
    Object(Vec<(String, Json)>),
}

/// A JSON value by its contents.
pub enum JsonView {
    Null,
    Bool(bool),
    Number(Seq<char>),
    Text(Seq<char>),
    List(Seq<JsonView>),
    Object(Seq<(Seq<char>, JsonView)>),
}

impl Json {
    /// The value's contents.
    pub open spec fn view(&self) -> JsonView
        decreases self,
    {
        match self {
            Json::Null => JsonView::Null,
            Json::Bool(b) => JsonView::Bool(*b),
            Json::Number(s) => JsonView::Number(s@),
            Json::Text(s) => JsonView::Text(s@),
            Json::List(items) => JsonView::List(
                Seq::new(
                    items@.len(),
                    |i: int|
                        if 0 <= i < items@.len() {
                            items@[i].view()
                        } else {
                            JsonView::Null
                        },
                ),
            ),
            Json::Object(fields) => JsonView::Object(
                Seq::new(
                    fields@.len(),
                    |i: int|
                        if 0 <= i < fields@.len() {
                            (fields@[i].0@, fields@[i].1.view())
                        } else {
                            (Seq::empty(), JsonView::Null)
                        },
                ),
            ),
        }
    }

    /// A copy of the value.
    pub fn copy(&self) -> (r: Json)
        ensures
            r@ == self@,
        decreases self,
    {
        match self {
            Json::Null => Json::Null,
            Json::Bool(b) => Json::Bool(*b),
            Json::Number(s) => Json::Number(owned(s.as_str())),
            Json::Text(s) => Json::Text(owned(s.as_str())),
            Json::List(items) => {
                let mut out: Vec<Json> = Vec::new();
                let mut i: usize = 0;
                while i < items.len()
                    invariant
                        i <= items@.len(),
                        out@.len() == i,
                        forall|k: int| 0 <= k < i ==> (#[trigger] out@[k])@ == items@[k]@,
                        *self == Json::List(*items),
                    decreases items@.len() - i,
                {
                    assert(decreases_to!(*self => self->List_0@[i as int]));
                    let c = items[i].copy();
                    out.push(c);
                    i = i + 1;
                }
                let r = Json::List(out);
                assert(r@->List_0 =~= self@->List_0);
                r
            },
            Json::Object(fields) => {
                let mut out: Vec<(String, Json)> = Vec::new();
                let mut i: usize = 0;
                while i < fields.len()
                    invariant
                        i <= fields@.len(),
                        out@.len() == i,
                        forall|k: int|
                            0 <= k < i ==> (#[trigger] out@[k]).0@ == fields@[k].0@ && out@[k].1@
                                == fields@[k].1@,
                        *self == Json::Object(*fields),
                    decreases fields@.len() - i,
                {
                    let name = owned(fields[i].0.as_str());
                    assert(decreases_to!(*self => self->Object_0@[i as int].1));
                    let c = fields[i].1.copy();
                    out.push((name, c));
                    i = i + 1;
                }
                let r = Json::Object(out);
                assert(r@->Object_0 =~= self@->Object_0);
                r
            },
        }
    }

    /// The member of an object with this name.
    pub fn get(&self, name: &str) -> (r: Option<&Json>)
        ensures
            match r {
                Some(j) => member(self@, name@) == Some(j@),
                None => member(self@, name@) is None,
            },
    {
        match self {
            Json::Object(fields) => {
                let mut i: usize = 0;
                let ghost fs = self@->Object_0;
                while i < fields.len()
                    invariant
                        i <= fields@.len(),
                        *self == Json::Object(*fields),
                        fs == self@->Object_0,
                        fs.len() == fields@.len(),
                        forall|k: int| 0 <= k < i ==> (#[trigger] fs[k]).0 != name@,
                    decreases fields@.len() - i,
                {
                    assert(fs[i as int] == (fields@[i as int].0@, fields@[i as int].1@));
                    if same_text(fields[i].0.as_str(), name) {
                        proof {
                            lemma_first_named(fs, name@, i as int);
                        }
                        return Some(&fields[i].1);
                    }
                    i = i + 1;
                }
                proof {
                    lemma_not_named(fs, name@);
                }
                None
            },
            _ => None,
        }
    }

    /// The text of a text value.
    pub fn as_text(&self) -> (r: Option<&str>)
        ensures
            match r {
                Some(s) => self@ == JsonView::Text(s@),
                None => !(self@ is Text),
            },
    {
        match self {
            Json::Text(s) => Some(s.as_str()),
            _ => None,
        }
    }
}

/// The index of the first member with this name; the number of members if there is
/// none.
pub open spec fn first_named(fields: Seq<(Seq<char>, JsonView)>, name: Seq<char>) -> int
    decreases fields.len(),
{
    if fields.len() == 0 {
        0
    } else if fields[0].0 == name {
        0
    } else {
        1 + first_named(fields.drop_first(), name)
    }
}

proof fn lemma_first_named(fields: Seq<(Seq<char>, JsonView)>, name: Seq<char>, at: int)
    requires
        0 <= at < fields.len(),
        fields[at].0 == name,
        forall|k: int| 0 <= k < at ==> (#[trigger] fields[k]).0 != name,
    ensures
        first_named(fields, name) == at,
    decreases fields.len(),
{
    if at > 0 {
        assert(fields[0].0 != name);
        assert forall|k: int| 0 <= k < at - 1 implies (#[trigger] fields.drop_first()[k]).0
            != name by {
            assert(fields[k + 1].0 != name);
        }
        lemma_first_named(fields.drop_first(), name, at - 1);
    }
}

proof fn lemma_not_named(fields: Seq<(Seq<char>, JsonView)>, name: Seq<char>)
    requires
        forall|k: int| 0 <= k < fields.len() ==> (#[trigger] fields[k]).0 != name,
    ensures
        first_named(fields, name) == fields.len(),
    decreases fields.len(),
{
    if fields.len() > 0 {
        assert(fields[0].0 != name);
        assert forall|k: int| 0 <= k < fields.len() - 1 implies (
        #[trigger] fields.drop_first()[k]).0 != name by {
            assert(fields[k + 1].0 != name);
        }
        lemma_not_named(fields.drop_first(), name);
    }
}

/// The member of an object with this name, the first if there are several; nothing
/// else has members.
pub open spec fn member(j: JsonView, name: Seq<char>) -> Option<JsonView> {
    match j {
        JsonView::Object(fields) => {
            let i = first_named(fields, name);
            if i < fields.len() {
                Some(fields[i].1)
            } else {
                None
            }
        },
        _ => None,
    }
}

/// A value with one member set. Anything that is not an object counts as an object
/// without members.
pub open spec fn with_member(j: JsonView, name: Seq<char>, v: JsonView) -> JsonView {
    let fields = match j {
        JsonView::Object(f) => f,
        _ => Seq::empty(),
    };
    let i = first_named(fields, name);
    if i < fields.len() {
        JsonView::Object(fields.update(i, (fields[i].0, v)))
    } else {
        JsonView::Object(fields.push((name, v)))
    }
}

/// A value with the member at a path of names set.
pub open spec fn with_path(j: JsonView, path: Seq<Seq<char>>, v: JsonView) -> JsonView
    decreases path.len(),
{
    if path.len() == 0 {
        v
    } else {
        let child = match member(j, path[0]) {
            Some(c) => c,
            None => JsonView::Null,
        };
        with_member(j, path[0], with_path(child, path.drop_first(), v))
    }
}

/// A value without its first member of this name.
pub open spec fn without_member(j: JsonView, name: Seq<char>) -> JsonView {
    match j {
        JsonView::Object(fields) => {
            let i = first_named(fields, name);
            if i < fields.len() {
                JsonView::Object(fields.remove(i))
            } else {
                j
            }
        },
        _ => j,
    }
}

/// Where in a member list a name first stands.
fn find(fields: &Vec<(String, Json)>, name: &str) -> (r: usize)
    ensures
        r == first_named(Json::Object(*fields)@->Object_0, name@),
        r <= fields@.len(),
{
    let ghost fs = Json::Object(*fields)@->Object_0;
    let mut i: usize = 0;
    while i < fields.len()
        invariant
            i <= fields@.len(),
            fs == Json::Object(*fields)@->Object_0,
            fs.len() == fields@.len(),
            forall|k: int| 0 <= k < i ==> (#[trigger] fs[k]).0 != name@,
        decreases fields@.len() - i,
    {
        assert(fs[i as int] == (fields@[i as int].0@, fields@[i as int].1@));
        if same_text(fields[i].0.as_str(), name) {
            proof {
                lemma_first_named(fs, name@, i as int);
            }
            return i;
        }
        i = i + 1;
    }
    proof {
        lemma_not_named(fs, name@);
    }
    i
}

/// Set one member of a value.
pub fn set_member(j: Json, name: &str, v: Json) -> (r: Json)
    ensures
        r@ == with_member(j@, name@, v@),
{
    let mut fields = match j {
        Json::Object(f) => f,
        _ => Vec::new(),
    };
    let ghost before = Json::Object(fields)@->Object_0;
    assert(before =~= match j@ {
        JsonView::Object(f) => f,
        _ => Seq::empty(),
    });
    let i = find(&fields, name);
    if i < fields.len() {
        let key = owned(fields[i].0.as_str());
        assert(before[i as int].0 == key@);
        fields.set(i, (key, v));
        let r = Json::Object(fields);
        assert(r@->Object_0 =~= before.update(i as int, (before[i as int].0, v@)));
        r
    } else {
        fields.push((owned(name), v));
        let r = Json::Object(fields);
        assert(r@->Object_0 =~= before.push((name@, v@)));
        r
    }
}

/// Remove one member of a value.
pub fn remove_member(j: Json, name: &str) -> (r: Json)
    ensures
        r@ == without_member(j@, name@),
{
    match j {
        Json::Object(fields) => {
            let mut fields = fields;
            let ghost before = Json::Object(fields)@->Object_0;
            let i = find(&fields, name);
            if i < fields.len() {
                fields.remove(i);
                let r = Json::Object(fields);
                assert(r@->Object_0 =~= before.remove(i as int));
                r
            } else {
                Json::Object(fields)
            }
        },
        other => other,
    }
}

/// The member of this name, or null.
fn child(j: &Json, name: &str) -> (r: Json)
    ensures
        r@ == match member(j@, name@) {
            Some(c) => c,
            None => JsonView::Null,
        },
{
    match j.get(name) {
        Some(c) => c.copy(),
        None => Json::Null,
    }
}

/// Set the member of a member.
pub fn set_in(j: Json, outer: &str, inner: &str, v: Json) -> (r: Json)
    ensures
        r@ == with_path(j@, seq![outer@, inner@], v@),
{
    let c = child(&j, outer);
    let ghost cv = c@;
    proof {
        reveal_with_fuel(with_path, 3);
        let path = seq![outer@, inner@];
        assert(path.drop_first() =~= seq![inner@]);
        assert(path.drop_first().drop_first() =~= Seq::<Seq<char>>::empty());
    }
    let c2 = set_member(c, inner, v);
    set_member(j, outer, c2)
}

/// Set the member of a member of a member.
pub fn set_deep(j: Json, outer: &str, middle: &str, inner: &str, v: Json) -> (r: Json)
    ensures
        r@ == with_path(j@, seq![outer@, middle@, inner@], v@),
{
    let c = child(&j, outer);
    proof {
        reveal_with_fuel(with_path, 2);
        let path = seq![outer@, middle@, inner@];
        assert(path.drop_first() =~= seq![middle@, inner@]);
    }
    let c2 = set_in(c, middle, inner, v);
    set_member(j, outer, c2)
}

/// A member holds this text.
pub open spec fn says(j: JsonView, name: Seq<char>, value: Seq<char>) -> bool {
    member(j, name) == Some(JsonView::Text(value))
}

/// Whether a member holds this text.
pub fn member_says(j: &Json, name: &str, value: &str) -> (r: bool)
    ensures
        r == says(j@, name@, value@),
{
    match j.get(name) {
        Some(m) => match m.as_text() {
            Some(t) => same_text(t, value),
            None => false,
        },
        None => false,
    }
}

/// The `fee-auction` deployment is listed as active.
pub open spec fn auction_listed_active(d: JsonView) -> bool {
    match member(d, "deployments"@) {
        Some(JsonView::List(items)) => exists|i: int|
            #![trigger items[i]]
            0 <= i < items.len() && says(items[i], "name"@, "fee-auction"@) && says(
                items[i],
                "state"@,
                "Active"@,
            ),
        _ => false,
    }
}

/// Whether a deployments report says that the blockspace auction is active.
///
/// Anything other than an explicit `state == "Active"` for the `fee-auction`
/// deployment reads as dormant: a node too old to report deployments, a malformed
/// answer, or a fork not yet active all mean "emit the bare action".
pub fn parse_fee_auction_active(deployments: &Json) -> (r: bool)
    ensures
        r == auction_listed_active(deployments@),
{
    match deployments.get("deployments") {
        Some(list) => match list {
            Json::List(items) => {
                let ghost vs = list@->List_0;
                let mut i: usize = 0;
                while i < items.len()
                    invariant
                        i <= items@.len(),
                        *list == Json::List(*items),
                        vs == list@->List_0,
                        vs.len() == items@.len(),
                        member(deployments@, "deployments"@) == Some(list@),
                        forall|k: int|
                            #![trigger vs[k]]
                            0 <= k < i ==> !(says(vs[k], "name"@, "fee-auction"@) && says(
                                vs[k],
                                "state"@,
                                "Active"@,
                            )),
                    decreases items@.len() - i,
                {
                    assert(vs[i as int] == items@[i as int]@);
                    if member_says(&items[i], "name", "fee-auction") && member_says(
                        &items[i],
                        "state",
                        "Active",
                    ) {
                        return true;
                    }
                    i = i + 1;
                }
                false
            },
            _ => false,
        },
        None => false,
    }
}

/// A member is the first of its name, and there is none where no name is that.
pub proof fn law_a_member_is_the_first_of_its_name(
    fields: Seq<(Seq<char>, JsonView)>,
    name: Seq<char>,
    at: int,
)
    ensures
        0 <= at < fields.len() && fields[at].0 == name && (forall|k: int|
            0 <= k < at ==> (#[trigger] fields[k]).0 != name) ==> member(
            JsonView::Object(fields),
            name,
        ) == Some(fields[at].1),
        (forall|k: int| 0 <= k < fields.len() ==> (#[trigger] fields[k]).0 != name) ==> member(
            JsonView::Object(fields),
            name,
        ) is None,
{
    if 0 <= at < fields.len() && fields[at].0 == name && (forall|k: int|
        0 <= k < at ==> (#[trigger] fields[k]).0 != name) {
        lemma_first_named(fields, name, at);
    }
    if forall|k: int| 0 <= k < fields.len() ==> (#[trigger] fields[k]).0 != name {
        lemma_not_named(fields, name);
    }
}

proof fn lemma_first_named_is(fields: Seq<(Seq<char>, JsonView)>, name: Seq<char>)
    ensures
        0 <= first_named(fields, name) <= fields.len(),
        first_named(fields, name) < fields.len() ==> fields[first_named(fields, name)].0 == name,
        forall|k: int| 0 <= k < first_named(fields, name) ==> (#[trigger] fields[k]).0 != name,
    decreases fields.len(),
{
    if fields.len() > 0 && fields[0].0 != name {
        let d = fields.drop_first();
        lemma_first_named_is(d, name);
        assert forall|k: int| 0 <= k < first_named(fields, name) implies (#[trigger] fields[k]).0
            != name by {
            if k > 0 {
                assert(d[k - 1] == fields[k]);
            }
        }
    }
}

/// A member that was set reads back, and every other member of an object stays as it was.
pub proof fn law_a_set_member_reads_back(
    j: JsonView,
    name: Seq<char>,
    v: JsonView,
    other: Seq<char>,
)
    ensures
        with_member(j, name, v) is Object,
        member(with_member(j, name, v), name) == Some(v),
        other != name ==> member(with_member(j, name, v), other) == member(j, other),
{
    let fields = match j {
        JsonView::Object(f) => f,
        _ => Seq::empty(),
    };
    let n = with_member(j, name, v)->Object_0;
    let at = first_named(fields, name);
    lemma_first_named_is(fields, name);
    lemma_first_named(n, name, at);
    if other != name {
        lemma_first_named_is(fields, other);
        let o = first_named(fields, other);
        if o < fields.len() {
            assert forall|k: int| 0 <= k < o implies (#[trigger] n[k]).0 != other by {
                assert(n[k].0 == fields[k].0);
            }
            assert(n[o].0 == other);
            lemma_first_named(n, other, o);
        } else {
            assert forall|k: int| 0 <= k < n.len() implies (#[trigger] n[k]).0 != other by {
                if k < fields.len() {
                    assert(n[k].0 == fields[k].0);
                }
            }
            lemma_not_named(n, other);
        }
    }
}

/// A member that was taken out of an object which names it once is gone, and every other
/// stays as it was.
pub proof fn law_a_removed_member_is_gone(
    fields: Seq<(Seq<char>, JsonView)>,
    name: Seq<char>,
    other: Seq<char>,
)
    requires
        forall|i: int, k: int|
            0 <= i < k < fields.len() ==> !((#[trigger] fields[i]).0 == name && (
            #[trigger] fields[k]).0 == name),
    ensures
        member(without_member(JsonView::Object(fields), name), name) is None,
        other != name ==> member(without_member(JsonView::Object(fields), name), other) == member(
            JsonView::Object(fields),
            other,
        ),
{
    let at = first_named(fields, name);
    lemma_first_named_is(fields, name);
    let n = without_member(JsonView::Object(fields), name)->Object_0;
    if at < fields.len() {
        assert(n == fields.remove(at));
        assert forall|k: int| 0 <= k < n.len() implies (#[trigger] n[k]).0 != name by {
            if k < at {
                assert(n[k] == fields[k]);
            } else {
                assert(n[k] == fields[k + 1]);
                assert(fields[at].0 == name);
            }
        }
    }
    lemma_not_named(n, name);
    if other != name && at < fields.len() {
        lemma_first_named_is(fields, other);
        let o = first_named(fields, other);
        if o < fields.len() {
            let p = if o < at {
                o
            } else {
                o - 1
            };
            assert(n[p] == fields[o]);
            assert forall|k: int| 0 <= k < p implies (#[trigger] n[k]).0 != other by {
                if k < at {
                    assert(n[k] == fields[k]);
                } else {
                    assert(n[k] == fields[k + 1]);
                }
            }
            lemma_first_named(n, other, p);
        } else {
            assert forall|k: int| 0 <= k < n.len() implies (#[trigger] n[k]).0 != other by {
                if k < at {
                    assert(n[k] == fields[k]);
                } else {
                    assert(n[k] == fields[k + 1]);
                }
            }
            lemma_not_named(n, other);
        }
    }
}

/// The value at a path of names.
pub open spec fn at_path(j: JsonView, path: Seq<Seq<char>>) -> Option<JsonView>
    decreases path.len(),
{
    if path.len() == 0 {
        Some(j)
    } else {
        match member(j, path[0]) {
            Some(c) => at_path(c, path.drop_first()),
            None => None,
        }
    }
}

/// What was set at a path of names reads back from it, and no member beside the path changes.
pub proof fn law_a_set_path_reads_back(
    j: JsonView,
    path: Seq<Seq<char>>,
    v: JsonView,
    other: Seq<char>,
)
    ensures
        at_path(with_path(j, path, v), path) == Some(v),
        path.len() > 0 && other != path[0] ==> member(with_path(j, path, v), other) == member(
            j,
            other,
        ),
    decreases path.len(),
{
    if path.len() > 0 {
        let child = match member(j, path[0]) {
            Some(c) => c,
            None => JsonView::Null,
        };
        let rest = path.drop_first();
        law_a_set_path_reads_back(child, rest, v, other);
        law_a_set_member_reads_back(j, path[0], with_path(child, rest, v), other);
    }
}

/// The auction is live exactly where the report lists a deployment by that name whose state
/// is said to be active, whatever else is listed. Any other report, or none, says it is not.
pub proof fn law_only_a_listed_active_auction_is_live(items: Seq<JsonView>, d: JsonView)
    requires
        member(d, "deployments"@) == Some(JsonView::List(items)),
    ensures
        forall|i: int|
            0 <= i < items.len() && member(#[trigger] items[i], "name"@) == Some(
                JsonView::Text("fee-auction"@),
            ) && member(items[i], "state"@) == Some(JsonView::Text("Active"@))
                ==> auction_listed_active(d),
        auction_listed_active(d) ==> exists|i: int|
            0 <= i < items.len() && member(#[trigger] items[i], "name"@) == Some(
                JsonView::Text("fee-auction"@),
            ) && member(items[i], "state"@) == Some(JsonView::Text("Active"@)),
{
    assert forall|i: int|
        0 <= i < items.len() && member(#[trigger] items[i], "name"@) == Some(
            JsonView::Text("fee-auction"@),
        ) && member(items[i], "state"@) == Some(
            JsonView::Text("Active"@),
        ) implies auction_listed_active(d) by {
        let listed = (member(d, "deployments"@)->Some_0)->List_0;
        assert(says(listed[i], "name"@, "fee-auction"@));
        assert(says(listed[i], "state"@, "Active"@));
    }
    if auction_listed_active(d) {
        let i = choose|i: int|
            #![trigger items[i]]
            0 <= i < items.len() && says(items[i], "name"@, "fee-auction"@) && says(
                items[i],
                "state"@,
                "Active"@,
            );
        assert(member(items[i], "name"@) == Some(JsonView::Text("fee-auction"@)));
        assert(member(items[i], "state"@) == Some(JsonView::Text("Active"@)));
    }
}

/// A report without a list of deployments says that the auction is not live.
pub proof fn law_no_list_means_no_auction(d: JsonView)
    requires
        !(member(d, "deployments"@) matches Some(JsonView::List(_))),
    ensures
        !auction_listed_active(d),
{
}

} // verus!
