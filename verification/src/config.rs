//! Configuration layering: which files are read, in which order, and how a
//! later file is merged over what came before.
//!
//! Values are merged recursively: objects key by key, anything else replaced
//! by the overlay. A later source therefore overrides only the values it
//! provides, so a user file that sets `docker` leaves `steps` alone.
use vstd::prelude::*;

verus! {

broadcast use vstd::string::group_string_axioms;

/// A JSON document: numbers keep the text they were written with, and an
/// object keeps its members in order, each key once.
#[derive(Debug, PartialEq, Eq)]
pub enum Json {
    Null,
    Bool(bool),
    Number(String),
    Str(String),
    Array(Vec<Json>),
    Object(Vec<(String, Json)>),
}

/// A JSON document as a value.
pub enum JsonView {
    Null,
    Bool(bool),
    Number(Seq<char>),
    Str(Seq<char>),
    Array(Seq<JsonView>),
    Object(Seq<(Seq<char>, JsonView)>),
}

/// The value of a document.
pub open spec fn json_view(j: Json) -> JsonView
    decreases j,
{
    match j {
        Json::Null => JsonView::Null,
        Json::Bool(b) => JsonView::Bool(b),
        Json::Number(n) => JsonView::Number(n@),
        Json::Str(s) => JsonView::Str(s@),
        Json::Array(items) => JsonView::Array(items_view(items@)),
        Json::Object(members) => JsonView::Object(members_view(members@)),
    }
}

/// The values of the items of an array.
pub open spec fn items_view(items: Seq<Json>) -> Seq<JsonView>
    decreases items,
{
    if items.len() == 0 {
        Seq::empty()
    } else {
        items_view(items.subrange(0, items.len() - 1)).push(json_view(items[items.len() - 1]))
    }
}

/// The keys and values of the members of an object.
pub open spec fn members_view(members: Seq<(String, Json)>) -> Seq<(Seq<char>, JsonView)>
    decreases members,
{
    if members.len() == 0 {
        Seq::empty()
    } else {
        members_view(members.subrange(0, members.len() - 1)).push(
            (members[members.len() - 1].0@, json_view(members[members.len() - 1].1)),
        )
    }
}

/// Where key `k` sits among `members`, or -1.
pub open spec fn member_index(members: Seq<(Seq<char>, JsonView)>, k: Seq<char>) -> int
    decreases members.len(),
{
    if members.len() == 0 {
        -1
    } else if members.last().0 == k {
        members.len() - 1
    } else {
        member_index(members.drop_last(), k)
    }
}

/// `overlay` merged over `base`: two objects merge key by key, and anything
/// else is replaced by the overlay.
pub open spec fn merge_spec(base: JsonView, overlay: JsonView) -> JsonView
    decreases overlay,
{
    match overlay {
        JsonView::Object(os) => match base {
            JsonView::Object(bs) => JsonView::Object(merge_members(bs, os)),
            _ => overlay,
        },
        _ => overlay,
    }
}

/// The members of `bs` with each member of `os` merged in, in order: a key
/// already present gets the merge of its value, a new key is appended.
pub open spec fn merge_members(bs: Seq<(Seq<char>, JsonView)>, os: Seq<(Seq<char>, JsonView)>) -> Seq<
    (Seq<char>, JsonView),
>
    decreases os,
{
    if os.len() == 0 {
        bs
    } else {
        let prev = merge_members(bs, os.subrange(0, os.len() - 1));
        let k = os[os.len() - 1].0;
        let v = os[os.len() - 1].1;
        let i = member_index(prev, k);
        if i >= 0 {
            prev.update(i, (k, merge_spec(prev[i].1, v)))
        } else {
            prev.push((k, v))
        }
    }
}


/// The view of members, item by item.
pub proof fn lemma_members_view(members: Seq<(String, Json)>)
    ensures
        members_view(members).len() == members.len(),
        forall|i: int| 0 <= i < members.len() ==> #[trigger] members_view(members)[i] == (
            members[i].0@,
            json_view(members[i].1),
        ),
    decreases members.len(),
{
    if members.len() > 0 {
        lemma_members_view(members.subrange(0, members.len() - 1));
    }
}

proof fn lemma_members_view_ext(a: Seq<(String, Json)>, b: Seq<(Seq<char>, JsonView)>)
    requires
        a.len() == b.len(),
        forall|i: int| 0 <= i < a.len() ==> #[trigger] b[i] == (a[i].0@, json_view(a[i].1)),
    ensures
        members_view(a) == b,
{
    lemma_members_view(a);
    assert(members_view(a) =~= b);
}

pub(crate) fn index_of_key(members: &Vec<(String, Json)>, k: &str) -> (r: Option<usize>)
    ensures
        match r {
            Some(i) => i < members@.len() && member_index(members_view(members@), k@) == i,
            None => member_index(members_view(members@), k@) == -1,
        },
{
    let ghost mv = members_view(members@);
    proof { lemma_members_view(members@); }
    let mut i: usize = members.len();
    assert(mv.subrange(0, mv.len() as int) =~= mv);
    while i > 0
        invariant
            mv == members_view(members@),
            mv.len() == members@.len(),
            forall|j: int| 0 <= j < mv.len() ==> #[trigger] mv[j] == (members@[j].0@, json_view(members@[j].1)),
            i <= mv.len(),
            member_index(mv, k@) == member_index(mv.subrange(0, i as int), k@),
        decreases i,
    {
        let ghost sub = mv.subrange(0, i as int);
        assert(sub.drop_last() =~= mv.subrange(0, i - 1));
        if crate::text::str_eq(members[i - 1].0.as_str(), k) {
            assert(sub.last().0 == k@);
            return Some(i - 1);
        }
        i -= 1;
    }
    None
}

/// Merge `overlay` over `base`: two objects merge key by key, recursively;
/// anything else is replaced by the overlay.
pub fn deep_merge(base: Json, overlay: Json) -> (r: Json)
    ensures
        json_view(r) == merge_spec(json_view(base), json_view(overlay)),
    decreases overlay,
{
    match overlay {
        Json::Object(os) => match base {
            Json::Object(bs) => {
                let merged = merge_into(bs, os);
                Json::Object(merged)
            },
            _ => Json::Object(os),
        },
        other => other,
    }
}

fn merge_into(bs: Vec<(String, Json)>, os: Vec<(String, Json)>) -> (r: Vec<(String, Json)>)
    ensures
        members_view(r@) == merge_members(members_view(bs@), members_view(os@)),
    decreases os,
{
    let ghost os_in: Vec<(String, Json)> = os;
    let ghost os0 = os@;
    let ghost all = members_view(os@);
    let ghost b = members_view(bs@);
    proof {
        lemma_members_view(os@);
    }
    let mut out = bs;
    let mut rest = os;
    let total: usize = rest.len();
    let mut n: usize = 0;
    assert(all.take(0) =~= Seq::<(Seq<char>, JsonView)>::empty());
    assert(rest@ =~= os0.skip(0));
    while rest.len() > 0
        invariant
            all == members_view(os0),
            all.len() == os0.len(),
            forall|j: int| 0 <= j < os0.len() ==> #[trigger] all[j] == (os0[j].0@, json_view(os0[j].1)),
            n <= os0.len(),
            os0 == os_in@,
            rest@ == os0.skip(n as int),
            rest@.len() == os0.len() - n,
            total == os0.len(),
            os_in == os,
            members_view(out@) == merge_members(b, all.take(n as int)),
        decreases rest@.len(),
    {
        let ghost before = out@;
        let ghost prev = members_view(before);
        assert(rest@[0] == os0[n as int]);
        let (k, v) = rest.remove(0);
        assert(rest@ =~= os0.skip(n + 1));
        let ghost t = all.take(n + 1);
        assert(t.subrange(0, t.len() - 1) =~= all.take(n as int));
        assert(t[t.len() - 1] == all[n as int]);
        proof { lemma_members_view(before); }
        match index_of_key(&out, k.as_str()) {
            Some(i) => {
                let (_k0, old) = out.remove(i);
                assert(decreases_to!(os_in => os_in@));
                assert(decreases_to!(os_in@ => os_in@[n as int]));
                assert(decreases_to!(os_in@[n as int] => os_in@[n as int].1));
                assert(v == os_in@[n as int].1);
                assert(decreases_to!(os_in => v));
                let m = deep_merge(old, v);
                out.insert(i, (k, m));
                proof {
                    lemma_members_view_ext(out@, prev.update(i as int, (all[n as int].0, merge_spec(prev[i as int].1, all[n as int].1))));
                }
            },
            None => {
                out.push((k, v));
                proof {
                    lemma_members_view_ext(out@, prev.push(all[n as int]));
                }
            },
        }
        n += 1;
    }
    assert(n == os0.len());
    assert(all.take(n as int) =~= all);
    out
}


/// The value under key `k` (its last occurrence).
pub open spec fn member_value(members: Seq<(Seq<char>, JsonView)>, k: Seq<char>) -> JsonView {
    members[member_index(members, k)].1
}

/// No key occurs twice.
pub open spec fn keys_unique(members: Seq<(Seq<char>, JsonView)>) -> bool {
    forall|i: int, j: int| 0 <= i < j < members.len() ==> #[trigger] members[i].0 != #[trigger] members[j].0
}

proof fn lemma_member_index_bounds(m: Seq<(Seq<char>, JsonView)>, k: Seq<char>)
    ensures
        -1 <= member_index(m, k) < m.len(),
        member_index(m, k) >= 0 ==> m[member_index(m, k)].0 == k,
        member_index(m, k) >= 0 ==> forall|j: int| member_index(m, k) < j < m.len() ==> #[trigger] m[j].0 != k,
        member_index(m, k) == -1 ==> forall|j: int| 0 <= j < m.len() ==> #[trigger] m[j].0 != k,
    decreases m.len(),
{
    if m.len() > 0 && m.last().0 != k {
        lemma_member_index_bounds(m.drop_last(), k);
        assert forall|j: int| 0 <= j < m.len() - 1 implies #[trigger] m[j].0 == m.drop_last()[j].0 by {}
    }
}

proof fn lemma_member_index_keys(a: Seq<(Seq<char>, JsonView)>, b: Seq<(Seq<char>, JsonView)>, k: Seq<char>)
    requires
        a.len() == b.len(),
        forall|j: int| 0 <= j < a.len() ==> #[trigger] a[j].0 == b[j].0,
    ensures
        member_index(a, k) == member_index(b, k),
    decreases a.len(),
{
    if a.len() > 0 {
        lemma_member_index_keys(a.drop_last(), b.drop_last(), k);
    }
}

/// Merging an object over an object overrides only what the overlay
/// provides: the result has exactly the keys of either; a key only the base
/// has keeps the base's value; a key the overlay has takes the overlay's
/// value, merged over the base's when the base has it too.
pub proof fn lemma_merge_overrides_only_what_the_overlay_provides(
    bs: Seq<(Seq<char>, JsonView)>,
    os: Seq<(Seq<char>, JsonView)>,
    k: Seq<char>,
)
    requires
        keys_unique(os),
    ensures
        member_index(merge_members(bs, os), k) >= 0 <==> (member_index(bs, k) >= 0 || member_index(os, k) >= 0),
        member_index(os, k) == -1 && member_index(bs, k) >= 0 ==> member_value(merge_members(bs, os), k)
            == member_value(bs, k),
        member_index(os, k) >= 0 ==> member_value(merge_members(bs, os), k) == if member_index(bs, k) >= 0 {
            merge_spec(member_value(bs, k), member_value(os, k))
        } else {
            member_value(os, k)
        },
    decreases os.len(),
{
    if os.len() > 0 {
        let rest = os.subrange(0, os.len() - 1);
        assert(rest =~= os.drop_last());
        assert(keys_unique(rest)) by {
            assert forall|i: int, j: int| 0 <= i < j < rest.len() implies #[trigger] rest[i].0 != #[trigger] rest[j].0 by {
                assert(rest[i] == os[i] && rest[j] == os[j]);
            }
        }
        let last = os[os.len() - 1];
        let prev = merge_members(bs, rest);
        lemma_merge_overrides_only_what_the_overlay_provides(bs, rest, k);
        lemma_merge_overrides_only_what_the_overlay_provides(bs, rest, last.0);
        lemma_member_index_bounds(prev, k);
        lemma_member_index_bounds(prev, last.0);
        lemma_member_index_bounds(rest, last.0);
        lemma_member_index_bounds(os, k);
        lemma_member_index_bounds(rest, k);
        let i = member_index(prev, last.0);
        let result = merge_members(bs, os);
        assert(member_index(rest, last.0) == -1) by {
            if member_index(rest, last.0) >= 0 {
                let j = member_index(rest, last.0);
                assert(os[j].0 == last.0);
            }
        }
        if i >= 0 {
            let w = merge_spec(prev[i].1, last.1);
            assert(result == prev.update(i, (last.0, w)));
            lemma_member_index_keys(result, prev, k);
        } else {
            assert(result == prev.push(last));
            assert(result.drop_last() =~= prev);
        }
        if k != last.0 {
            assert(member_index(os, k) == member_index(rest, k)) by {
                assert(os.drop_last() =~= rest);
            }
            if member_index(os, k) >= 0 {
                assert(member_value(os, k) == member_value(rest, k)) by {
                    assert(os[member_index(os, k)] == rest[member_index(rest, k)]);
                }
            }
        } else {
            assert(member_index(os, k) == os.len() - 1);
        }
    }
}


/// The legacy user configuration directory, under `~/.config`.
pub const LEGACY_USER_CONFIG_DIR: &'static str = "tui-verifier";
/// The user configuration directory, under `~/.config`.
pub const CURRENT_USER_CONFIG_DIR: &'static str = "termproof";
/// The legacy project configuration directory.
pub const LEGACY_PROJECT_CONFIG_DIR: &'static str = ".tui-verifier";
/// The project configuration directory.
pub const CURRENT_PROJECT_CONFIG_DIR: &'static str = ".termproof";

/// The configuration files read, lowest precedence first: the user file
/// given, or else the legacy and current files under `<home>/.config`; then
/// the legacy and current project files; then an explicit `--config` file.
pub open spec fn layers_spec(
    project_root: Seq<char>,
    user_path: Option<Seq<char>>,
    home: Option<Seq<char>>,
    config_path: Option<Seq<char>>,
) -> Seq<Seq<char>> {
    let user = match user_path {
        Some(p) => seq![p],
        None => match home {
            Some(h) => seq![
                crate::store::joined_path(crate::store::joined_path(crate::store::joined_path(h, ".config"@), "tui-verifier"@), "config.yaml"@),
                crate::store::joined_path(crate::store::joined_path(crate::store::joined_path(h, ".config"@), "termproof"@), "config.yaml"@),
            ],
            None => Seq::empty(),
        },
    };
    let project = seq![
        crate::store::joined_path(crate::store::joined_path(project_root, ".tui-verifier"@), "config.yaml"@),
        crate::store::joined_path(crate::store::joined_path(project_root, ".termproof"@), "config.yaml"@),
    ];
    let explicit = match config_path {
        Some(p) => seq![p],
        None => Seq::empty(),
    };
    user + project + explicit
}

fn join3(a: &str, b: &str, c: &str) -> (r: String)
    ensures
        r@ == crate::store::joined_path(crate::store::joined_path(a@, b@), c@),
{
    let ab = crate::cache::join_exec(a, b);
    crate::cache::join_exec(ab.as_str(), c)
}

/// The configuration files to read, lowest precedence first.
pub fn config_layers(project_root: &str, user_path: Option<&str>, home: Option<&str>, config_path: Option<&str>) -> (r: Vec<String>)
    ensures
        Seq::new(r@.len(), |i: int| r@[i]@) == layers_spec(
            project_root@,
            match user_path {
                Some(p) => Some(p@),
                None => None,
            },
            match home {
                Some(h) => Some(h@),
                None => None,
            },
            match config_path {
                Some(p) => Some(p@),
                None => None,
            },
        ),
{
    let mut out: Vec<String> = Vec::new();
    match user_path {
        Some(p) => out.push(crate::text::owned(p)),
        None => match home {
            Some(h) => {
                let config = crate::cache::join_exec(h, ".config");
                out.push(join3(config.as_str(), LEGACY_USER_CONFIG_DIR, "config.yaml"));
                out.push(join3(config.as_str(), CURRENT_USER_CONFIG_DIR, "config.yaml"));
            },
            None => {},
        },
    }
    out.push(join3(project_root, LEGACY_PROJECT_CONFIG_DIR, "config.yaml"));
    out.push(join3(project_root, CURRENT_PROJECT_CONFIG_DIR, "config.yaml"));
    match config_path {
        Some(p) => out.push(crate::text::owned(p)),
        None => {},
    }
    proof {
        reveal_strlit("tui-verifier");
        reveal_strlit("termproof");
        reveal_strlit(".tui-verifier");
        reveal_strlit(".termproof");
    }
    assert(Seq::new(out@.len(), |i: int| out@[i]@) =~= layers_spec(
        project_root@,
        match user_path {
            Some(p) => Some(p@),
            None => None,
        },
        match home {
            Some(h) => Some(h@),
            None => None,
        },
        match config_path {
            Some(p) => Some(p@),
            None => None,
        },
    ));
    out
}

/// What a configuration file contributes: its document when that is an
/// object, and an empty object otherwise (an empty file included).
pub open spec fn layer_spec(parsed: Option<JsonView>) -> JsonView {
    match parsed {
        Some(JsonView::Object(members)) => JsonView::Object(members),
        _ => JsonView::Object(Seq::empty()),
    }
}

/// What a configuration file contributes, given its parsed document (`None`
/// for a file with nothing but whitespace in it).
pub fn config_layer(parsed: Option<Json>) -> (r: Json)
    ensures
        json_view(r) == layer_spec(
            match parsed {
                Some(j) => Some(json_view(j)),
                None => None,
            },
        ),
{
    match parsed {
        Some(Json::Object(members)) => Json::Object(members),
        _ => {
            let empty: Vec<(String, Json)> = Vec::new();
            assert(members_view(empty@) =~= Seq::<(Seq<char>, JsonView)>::empty());
            Json::Object(empty)
        },
    }
}

/// The builtin configuration with each layer merged over it in turn.
pub open spec fn merged_layers(builtin: JsonView, layers: Seq<JsonView>) -> JsonView
    decreases layers.len(),
{
    if layers.len() == 0 {
        builtin
    } else {
        merge_spec(merged_layers(builtin, layers.drop_last()), layers.last())
    }
}

/// Merge each layer over the builtin configuration, lowest precedence first.
pub fn merge_layers(builtin: Json, layers: Vec<Json>) -> (r: Json)
    ensures
        json_view(r) == merged_layers(json_view(builtin), Seq::new(layers@.len(), |i: int| json_view(layers@[i]))),
{
    let ghost lv = Seq::new(layers@.len(), |i: int| json_view(layers@[i]));
    let ghost b = json_view(builtin);
    let mut acc = builtin;
    let mut rest = layers;
    let ghost all = rest@;
    let total: usize = rest.len();
    let mut n: usize = 0;
    assert(lv.take(0) =~= Seq::<JsonView>::empty());
    assert(rest@ =~= all.skip(0));
    while rest.len() > 0
        invariant
            lv == Seq::new(all.len(), |i: int| json_view(all[i])),
            total == all.len(),
            n + rest@.len() == total,
            rest@ == all.skip(n as int),
            json_view(acc) == merged_layers(b, lv.take(n as int)),
        decreases rest@.len(),
    {
        assert(rest@[0] == all[n as int]);
        let layer = rest.remove(0);
        assert(rest@ =~= all.skip(n + 1));
        acc = deep_merge(acc, layer);
        assert(lv.take(n + 1).drop_last() =~= lv.take(n as int));
        n += 1;
    }
    assert(lv.take(n as int) =~= lv);
    acc
}

#[verifier::external_type_specification]
#[verifier::external_body]
pub struct ExJsonValue(serde_json::Value);

/// A `serde_json::Value` as the library's document, variant for variant:
/// a number keeps the text `serde_json` writes for it, and an object its
/// members in the map's order.
#[verifier::external_body]
pub(crate) fn json_of_value(v: &serde_json::Value) -> Json {
    match v {
        serde_json::Value::Null => Json::Null,
        serde_json::Value::Bool(b) => Json::Bool(*b),
        serde_json::Value::Number(n) => Json::Number(n.to_string()),
        serde_json::Value::String(s) => Json::Str(s.clone()),
        serde_json::Value::Array(a) => Json::Array(a.iter().map(json_of_value).collect()),
        serde_json::Value::Object(m) => Json::Object(m.iter().map(|(k, x)| (k.clone(), json_of_value(x))).collect()),
    }
}

/// What `serde_yaml::from_str` into a YAML value, then `serde_json::to_value`
/// of it, give for `text`: the document, or the display text of the error.
pub uninterp spec fn yaml_document(text: Seq<char>) -> Result<JsonView, Seq<char>>;

/// `serde_yaml::from_str` and `serde_json::to_value`, the result as the
/// library's document. Trusted to depend on the text alone.
#[verifier::external_body]
fn parse_yaml(text: &str) -> (r: Result<Json, String>)
    ensures
        match r {
            Ok(j) => yaml_document(text@) == Ok::<JsonView, Seq<char>>(json_view(j)),
            Err(e) => yaml_document(text@) == Err::<JsonView, Seq<char>>(e@),
        },
{
    match serde_yaml::from_str::<serde_yaml::Value>(text) {
        Ok(yaml) => match serde_json::to_value(yaml) {
            Ok(v) => Ok(json_of_value(&v)),
            Err(e) => Err(e.to_string()),
        },
        Err(e) => Err(e.to_string()),
    }
}

/// A configuration file's document: nothing for a file that holds only
/// whitespace, else its YAML read as a document, or the parser's message.
pub open spec fn config_document_spec(text: Seq<char>) -> Result<Option<JsonView>, Seq<char>> {
    if crate::text::trim(text).len() == 0 {
        Ok(None)
    } else {
        match yaml_document(text) {
            Ok(j) => Ok(Some(j)),
            Err(e) => Err(e),
        }
    }
}

/// A configuration file's document, from its text.
pub fn config_document(text: &str) -> (r: Result<Option<Json>, String>)
    ensures
        match r {
            Ok(Some(j)) => config_document_spec(text@) == Ok::<Option<JsonView>, Seq<char>>(Some(json_view(j))),
            Ok(None) => config_document_spec(text@) == Ok::<Option<JsonView>, Seq<char>>(None),
            Err(e) => config_document_spec(text@) == Err::<Option<JsonView>, Seq<char>>(e@),
        },
{
    if crate::text::trim_chars(crate::text::chars_of(text).as_slice()).len() == 0 {
        return Ok(None);
    }
    match parse_yaml(text) {
        Ok(j) => Ok(Some(j)),
        Err(e) => Err(e),
    }
}

} // verus!
