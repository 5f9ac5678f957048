//! Run-cache naming: hex encoding of digests and where a cached result lives.
use vstd::prelude::*;
use crate::store::{joined_path, sanitize_component, sanitize_spec};
use crate::text::{chars_of, hex2, push_hex2, push_str, string_of};
use vstd::utf8::encode_utf8;
use vstd::string::StringSliceAdditionalSpecFns;

verus! {

broadcast use vstd::string::group_string_axioms;

/// `bytes` as lowercase hex, two digits per byte.
pub open spec fn hex_spec(bytes: Seq<u8>) -> Seq<char>
    decreases bytes.len(),
{
    if bytes.len() == 0 {
        Seq::<char>::empty()
    } else {
        hex_spec(bytes.drop_last()) + hex2(bytes.last() as int)
    }
}

/// Lowercase hex encoding, two digits per byte.
pub fn encode(bytes: &[u8]) -> (s: String)
    ensures
        s@ == hex_spec(bytes@),
        s@.len() == 2 * bytes@.len(),
{
    let mut out: Vec<char> = Vec::new();
    let mut i: usize = 0;
    assert(bytes@.take(0) =~= Seq::<u8>::empty());
    while i < bytes.len()
        invariant
            i <= bytes@.len(),
            out@ == hex_spec(bytes@.take(i as int)),
            out@.len() == 2 * i,
        decreases bytes@.len() - i,
    {
        assert(bytes@.take(i + 1).drop_last() =~= bytes@.take(i as int));
        push_hex2(&mut out, bytes[i]);
        i += 1;
    }
    assert(bytes@.take(bytes@.len() as int) =~= bytes@);
    string_of(out.as_slice())
}

/// Where the cached result of `recipe_name` under `renderer` lives:
/// `<cache_dir>/<recipe>/<renderer>.json`, each name sanitised into a single
/// path component.
pub open spec fn cache_path_spec(cache_dir: Seq<char>, recipe_name: Seq<char>, renderer: Seq<char>) -> Seq<char> {
    joined_path(joined_path(cache_dir, sanitize_spec(recipe_name)), sanitize_spec(renderer) + ".json"@)
}

pub(crate) fn join_exec(base: &str, rest: &str) -> (r: String)
    ensures
        r@ == joined_path(base@, rest@),
{
    let b = chars_of(base);
    let mut out: Vec<char> = Vec::new();
    out.extend_from_slice(b.as_slice());
    if b.len() > 0 && b[b.len() - 1] != '/' {
        out.push('/');
    }
    let r = chars_of(rest);
    out.extend_from_slice(r.as_slice());
    assert(out@ =~= joined_path(base@, rest@));
    string_of(out.as_slice())
}

/// The cache file for `recipe_name` under `renderer`.
pub fn cache_path(cache_dir: &str, recipe_name: &str, renderer: &str) -> (p: String)
    ensures
        p@ == cache_path_spec(cache_dir@, recipe_name@, renderer@),
{
    let dir = join_exec(cache_dir, sanitize_component(recipe_name).as_str());
    let mut file = sanitize_component(renderer);
    crate::text::push_str(&mut file, ".json");
    join_exec(dir.as_str(), file.as_str())
}


// ---------------------------------------------------------------------------
// The cache key
// ---------------------------------------------------------------------------

/// How `serde_json` writes a character inside a JSON string: `"` and `\`
/// escaped, the short escapes for backspace, form feed, newline, carriage
/// return and tab, any other control character below U+0020 as `\u00XX` in
/// lowercase hex, and everything else as it is.
pub open spec fn json_char(c: char) -> Seq<char> {
    if c == '"' {
        seq!['\\', '"']
    } else if c == '\\' {
        seq!['\\', '\\']
    } else if c == '\u{8}' {
        seq!['\\', 'b']
    } else if c == '\u{c}' {
        seq!['\\', 'f']
    } else if c == '\n' {
        seq!['\\', 'n']
    } else if c == '\r' {
        seq!['\\', 'r']
    } else if c == '\t' {
        seq!['\\', 't']
    } else if (c as u32) < 0x20 {
        seq!['\\', 'u', '0', '0'] + hex2(c as int)
    } else {
        seq![c]
    }
}

/// The characters of `s` as `serde_json` writes them inside a string.
pub open spec fn json_chars(s: Seq<char>) -> Seq<char>
    decreases s.len(),
{
    if s.len() == 0 {
        Seq::empty()
    } else {
        json_chars(s.drop_last()) + json_char(s.last())
    }
}

/// A string as a JSON string literal.
pub open spec fn json_string_spec(s: Seq<char>) -> Seq<char> {
    seq!['"'] + json_chars(s) + seq!['"']
}

/// `serde_json::to_string` on a string: the string in double quotes, escaped
/// as [`json_char`] says (which is what `serde_json`'s escape table in
/// `ser.rs` does). Serialising a string does not fail.
#[verifier::external_body]
fn json_string(s: &str) -> (r: String)
    ensures
        r@ == json_string_spec(s@),
{
    serde_json::to_string(s).unwrap_or_default()
}

/// The options a cached result depends on besides the recipe.
#[derive(Debug, Clone, PartialEq, Eq)]
pub struct CacheOptions {
    /// Renderer name.
    pub renderer: String,
    /// Extra argv for the renderer.
    pub renderer_argv: Vec<String>,
    /// Where run directories go.
    pub out_dir: String,
    /// Screen renderer name.
    pub screen_renderer: String,
    /// Video backend name.
    pub video_backend: String,
    /// Whether a video is rendered.
    pub render_video: bool,
    /// Video frame rate.
    pub video_fps: u32,
}

/// Strings as JSON string literals, separated by commas.
pub open spec fn json_list_items(v: Seq<Seq<char>>) -> Seq<char> {
    crate::text::join(Seq::new(v.len(), |i: int| json_string_spec(v[i])), seq![','])
}

/// The options as the compact JSON object the key hashes, keys in sorted
/// order; the video backend and frame rate count only when a video is
/// rendered.
pub open spec fn payload_spec(o: CacheOptions) -> Seq<char> {
    "{\"out_dir\":"@ + json_string_spec(o.out_dir@) + ",\"render_video\":"@ + (if o.render_video {
        "true"@
    } else {
        "false"@
    }) + ",\"renderer\":"@ + json_string_spec(o.renderer@) + ",\"renderer_argv\":["@ + json_list_items(
        Seq::new(o.renderer_argv@.len(), |i: int| o.renderer_argv@[i]@),
    ) + "],\"screen_renderer\":"@ + json_string_spec(o.screen_renderer@) + ",\"video_backend\":"@
        + json_string_spec(if o.render_video { o.video_backend@ } else { Seq::empty() }) + ",\"video_fps\":"@
        + crate::text::decimal(if o.render_video { o.video_fps as nat } else { 0 }) + "}"@
}

/// The options as the JSON object the key hashes.
pub fn cache_payload(o: &CacheOptions) -> (s: String)
    ensures
        s@ == payload_spec(*o),
{
    let mut s = crate::text::owned("{\"out_dir\":");
    push_str(&mut s, json_string(o.out_dir.as_str()).as_str());
    push_str(&mut s, ",\"render_video\":");
    push_str(&mut s, if o.render_video { "true" } else { "false" });
    push_str(&mut s, ",\"renderer\":");
    push_str(&mut s, json_string(o.renderer.as_str()).as_str());
    push_str(&mut s, ",\"renderer_argv\":[");
    let ghost args = Seq::new(o.renderer_argv@.len(), |i: int| o.renderer_argv@[i]@);
    let ghost want = Seq::new(args.len(), |i: int| json_string_spec(args[i]));
    let mut pieces: Vec<Vec<char>> = Vec::new();
    let mut i: usize = 0;
    while i < o.renderer_argv.len()
        invariant
            args == Seq::new(o.renderer_argv@.len(), |i: int| o.renderer_argv@[i]@),
            want == Seq::new(args.len(), |i: int| json_string_spec(args[i])),
            i <= args.len(),
            crate::text::views(pieces@) == want.take(i as int),
        decreases args.len() - i,
    {
        let q = chars_of(json_string(o.renderer_argv[i].as_str()).as_str());
        proof { crate::text::lemma_views_push(pieces@, q); }
        pieces.push(q);
        assert(want.take(i as int).push(want[i as int]) =~= want.take(i + 1));
        i += 1;
    }
    assert(want.take(args.len() as int) =~= want);
    let joined = crate::text::join_chars(&pieces, &[',']);
    assert([',']@ =~= seq![',']);
    push_str(&mut s, string_of(joined.as_slice()).as_str());
    push_str(&mut s, "],\"screen_renderer\":");
    push_str(&mut s, json_string(o.screen_renderer.as_str()).as_str());
    push_str(&mut s, ",\"video_backend\":");
    push_str(&mut s, json_string(if o.render_video { o.video_backend.as_str() } else { "" }).as_str());
    push_str(&mut s, ",\"video_fps\":");
    let mut digits: Vec<char> = Vec::new();
    crate::text::push_decimal(&mut digits, if o.render_video { o.video_fps as u64 } else { 0 });
    push_str(&mut s, string_of(digits.as_slice()).as_str());
    push_str(&mut s, "}");
    proof {
        reveal_strlit("");
    }
    assert(digits@ =~= crate::text::decimal(if o.render_video { o.video_fps as nat } else { 0 }));
    s
}

/// What a CI path contributes besides its resolved path.
#[derive(Debug, Clone, PartialEq, Eq)]
pub enum CiContent {
    /// A file, with its bytes when it could be read.
    File(Option<Vec<u8>>),
    /// A directory, with its files (sorted, recursively) and each file's bytes
    /// when it could be read; `None` when the directory could not be listed.
    Dir(Option<Vec<(String, Option<Vec<u8>>)>>),
    /// Nothing is there.
    Missing,
}

/// A CI path resolved, with what is there.
#[derive(Debug, Clone, PartialEq, Eq)]
pub struct CiInput {
    /// The resolved path.
    pub resolved: String,
    /// What is there.
    pub content: CiContent,
}

/// The bytes of `<missing>`.
pub open spec fn missing_bytes() -> Seq<u8> {
    encode_utf8("<missing>"@)
}

/// The bytes of an optional read.
pub open spec fn read_bytes(d: Option<Vec<u8>>) -> Seq<u8> {
    match d {
        Some(b) => b@,
        None => Seq::empty(),
    }
}

/// The bytes a directory's files contribute: each path, then its bytes.
pub open spec fn dir_bytes(files: Seq<(String, Option<Vec<u8>>)>) -> Seq<u8>
    decreases files.len(),
{
    if files.len() == 0 {
        Seq::empty()
    } else {
        dir_bytes(files.drop_last()) + encode_utf8(files.last().0@) + read_bytes(files.last().1)
    }
}

/// The bytes a CI path contributes: its resolved path, then its content.
pub open spec fn ci_bytes(c: CiInput) -> Seq<u8> {
    encode_utf8(c.resolved@) + match c.content {
        CiContent::File(d) => read_bytes(d),
        CiContent::Dir(Some(files)) => dir_bytes(files@),
        CiContent::Dir(None) => Seq::empty(),
        CiContent::Missing => missing_bytes(),
    }
}

/// The bytes all CI paths contribute, in order.
pub open spec fn cis_bytes(cs: Seq<CiInput>) -> Seq<u8>
    decreases cs.len(),
{
    if cs.len() == 0 {
        Seq::empty()
    } else {
        cis_bytes(cs.drop_last()) + ci_bytes(cs.last())
    }
}

/// What the cache key digests: the recipe's path, its bytes (or
/// `<missing>`), what each CI path contributes, and the options' JSON.
pub open spec fn key_input(source: Seq<char>, recipe: Option<Seq<u8>>, ci: Seq<CiInput>, o: CacheOptions) -> Seq<u8> {
    encode_utf8(source) + match recipe {
        Some(b) => b,
        None => missing_bytes(),
    } + cis_bytes(ci) + encode_utf8(payload_spec(o))
}

fn append_bytes(out: &mut Vec<u8>, b: &[u8])
    ensures
        final(out)@ == old(out)@ + b@,
{
    let mut i: usize = 0;
    let ghost start = out@;
    while i < b.len()
        invariant
            i <= b@.len(),
            out@ == start + b@.take(i as int),
        decreases b@.len() - i,
    {
        out.push(b[i]);
        assert(b@.take(i + 1) =~= b@.take(i as int).push(b@[i as int]));
        i += 1;
    }
    assert(b@.take(b@.len() as int) =~= b@);
}

fn append_read(out: &mut Vec<u8>, d: &Option<Vec<u8>>)
    ensures
        final(out)@ == old(out)@ + read_bytes(*d),
{
    match d {
        Some(b) => append_bytes(out, b.as_slice()),
        None => {
            assert(old(out)@ + Seq::<u8>::empty() =~= old(out)@);
        },
    }
}

fn append_ci(out: &mut Vec<u8>, c: &CiInput)
    ensures
        final(out)@ == old(out)@ + ci_bytes(*c),
{
    let ghost start = out@;
    append_bytes(out, c.resolved.as_str().as_bytes());
    match &c.content {
        CiContent::File(d) => append_read(out, d),
        CiContent::Dir(Some(files)) => {
            let ghost mid = out@;
            let mut i: usize = 0;
            assert(files@.take(0) =~= Seq::<(String, Option<Vec<u8>>)>::empty());
            while i < files.len()
                invariant
                    i <= files@.len(),
                    out@ == mid + dir_bytes(files@.take(i as int)),
                decreases files@.len() - i,
            {
                append_bytes(out, files[i].0.as_str().as_bytes());
                append_read(out, &files[i].1);
                assert(files@.take(i + 1).drop_last() =~= files@.take(i as int));
                i += 1;
            }
            assert(files@.take(files@.len() as int) =~= files@);
        },
        CiContent::Dir(None) => {},
        CiContent::Missing => append_bytes(out, "<missing>".as_bytes()),
    }
    assert(out@ =~= start + ci_bytes(*c));
}

/// The cache key of a recipe: the lowercase hex SHA-256 digest of its path,
/// its bytes (`None`: no file there), what each CI path contributes, in the
/// order given, and the options' JSON.
pub fn cache_key_of(source: &str, recipe: Option<&[u8]>, ci: &[CiInput], o: &CacheOptions) -> (k: String)
    ensures
        k@.len() == 64,
        crate::attributed::is_lower_hex(k@),
        k@ == crate::attributed::sha256_hex(
            key_input(
                source@,
                match recipe {
                    Some(b) => Some(b@),
                    None => None,
                },
                ci@,
                *o,
            ),
        ),
{
    let mut data: Vec<u8> = Vec::new();
    append_bytes(&mut data, source.as_bytes());
    match recipe {
        Some(b) => append_bytes(&mut data, b),
        None => append_bytes(&mut data, "<missing>".as_bytes()),
    }
    let ghost mid = data@;
    let mut i: usize = 0;
    assert(ci@.take(0) =~= Seq::<CiInput>::empty());
    while i < ci.len()
        invariant
            i <= ci@.len(),
            data@ == mid + cis_bytes(ci@.take(i as int)),
        decreases ci@.len() - i,
    {
        append_ci(&mut data, &ci[i]);
        assert(ci@.take(i + 1).drop_last() =~= ci@.take(i as int));
        i += 1;
    }
    assert(ci@.take(ci@.len() as int) =~= ci@);
    let payload = cache_payload(o);
    append_bytes(&mut data, payload.as_str().as_bytes());
    assert(data@ =~= key_input(
        source@,
        match recipe {
            Some(b) => Some(b@),
            None => None,
        },
        ci@,
        *o,
    ));
    crate::attributed::sha256_hex_digest(data.as_slice())
}

/// The pairs as texts.
pub open spec fn pair_texts(extra: Seq<(String, String)>) -> Seq<(Seq<char>, Seq<char>)> {
    Seq::new(extra.len(), |i: int| (extra[i].0@, extra[i].1@))
}

/// One member of a JSON object, `"key":"value"`.
pub open spec fn json_member(p: (Seq<char>, Seq<char>)) -> Seq<char> {
    json_string_spec(p.0) + seq![':'] + json_string_spec(p.1)
}

/// The pairs as the compact JSON object `serde_json` writes for a map of
/// strings, members in the order given.
pub open spec fn json_object_spec(extra: Seq<(Seq<char>, Seq<char>)>) -> Seq<char> {
    seq!['{'] + crate::text::join(Seq::new(extra.len(), |i: int| json_member(extra[i])), seq![',']) + seq!['}']
}

/// A cache key from raw recipe bytes and extra options: the lowercase hex
/// SHA-256 digest of the bytes followed by the options as a JSON object.
/// The options come in key order, as a sorted map gives them; the recipe
/// name and renderer do not enter the key.
pub fn key_from_bytes(recipe_name: &str, renderer: &str, extra: &[(String, String)], recipe_bytes: &[u8]) -> (k:
    String)
    ensures
        k@ == crate::attributed::sha256_hex(recipe_bytes@ + encode_utf8(json_object_spec(pair_texts(extra@)))),
        k@.len() == 64,
        crate::attributed::is_lower_hex(k@),
{
    let _ = (recipe_name, renderer);
    let ghost pairs = pair_texts(extra@);
    let ghost want = Seq::new(pairs.len(), |i: int| json_member(pairs[i]));
    let mut pieces: Vec<Vec<char>> = Vec::new();
    let mut i: usize = 0;
    while i < extra.len()
        invariant
            pairs == pair_texts(extra@),
            want == Seq::new(pairs.len(), |i: int| json_member(pairs[i])),
            i <= extra@.len(),
            crate::text::views(pieces@) == want.take(i as int),
        decreases extra@.len() - i,
    {
        let mut q = chars_of(json_string(extra[i].0.as_str()).as_str());
        q.push(':');
        let v = chars_of(json_string(extra[i].1.as_str()).as_str());
        q.extend_from_slice(v.as_slice());
        assert(q@ =~= json_member(pairs[i as int]));
        proof { crate::text::lemma_views_push(pieces@, q); }
        pieces.push(q);
        assert(want.take(i as int).push(want[i as int]) =~= want.take(i + 1));
        i += 1;
    }
    assert(want.take(extra@.len() as int) =~= want);
    let joined = crate::text::join_chars(&pieces, &[',']);
    assert([',']@ =~= seq![',']);
    let mut text: Vec<char> = Vec::new();
    text.push('{');
    text.extend_from_slice(joined.as_slice());
    text.push('}');
    assert(text@ =~= json_object_spec(pairs));
    let payload = string_of(text.as_slice());
    let mut data: Vec<u8> = Vec::new();
    append_bytes(&mut data, recipe_bytes);
    append_bytes(&mut data, payload.as_str().as_bytes());
    crate::attributed::sha256_hex_digest(data.as_slice())
}

/// The path `std::path::Path::parent` gives.
pub uninterp spec fn std_parent(path: Seq<char>) -> Option<Seq<char>>;

/// `std::path::Path::parent`: the path without its last component, `None`
/// for a root or an empty path. The contract names the result; it does not
/// restate the standard library's treatment of `.` and `..`.
#[verifier::external_body]
fn path_parent(path: &str) -> (r: Option<String>)
    ensures
        match r {
            Some(p) => std_parent(path@) == Some(p@),
            None => std_parent(path@) is None,
        },
{
    std::path::Path::new(path).parent().map(|p| p.to_string_lossy().into_owned())
}

/// Where a CI path points: itself when absolute; else joined to the given
/// base, or else to the recipe's directory (`.` when it has none).
pub open spec fn resolve_ci_spec(ci: Seq<char>, base: Option<Seq<char>>, source: Seq<char>) -> Seq<char> {
    if ci.len() > 0 && ci[0] == '/' {
        ci
    } else {
        match base {
            Some(b) => joined_path(b, ci),
            None => joined_path(
                match std_parent(source) {
                    Some(p) => p,
                    None => "."@,
                },
                ci,
            ),
        }
    }
}

/// Where a CI path points.
pub fn resolve_ci(ci: &str, base: Option<&str>, source: &str) -> (r: String)
    ensures
        r@ == resolve_ci_spec(
            ci@,
            match base {
                Some(b) => Some(b@),
                None => None,
            },
            source@,
        ),
{
    let c = chars_of(ci);
    if c.len() > 0 && c[0] == '/' {
        return crate::text::owned(ci);
    }
    match base {
        Some(b) => join_exec(b, ci),
        None => match path_parent(source) {
            Some(p) => join_exec(p.as_str(), ci),
            None => join_exec(".", ci),
        },
    }
}

/// The order CI paths are given in does not matter: any two lists holding
/// the same paths, each as often, sort to the same list, which is the order
/// the key hashes them in.
pub proof fn lemma_ci_order_does_not_matter(a: Seq<Seq<char>>, b: Seq<Seq<char>>)
    requires
        a.to_multiset() == b.to_multiset(),
    ensures
        a.sort_by(crate::text::text_leq()) == b.sort_by(crate::text::text_leq()),
{
    let leq = crate::text::text_leq();
    crate::text::lemma_text_leq_total_ordering();
    a.lemma_sort_by_ensures(leq);
    b.lemma_sort_by_ensures(leq);
    vstd::seq_lib::lemma_sorted_unique(a.sort_by(leq), b.sort_by(leq), leq);
}

/// Without a video, the video settings do not enter the key: two option
/// sets that differ only in the video backend and frame rate hash the same
/// payload when no video is rendered.
pub proof fn lemma_video_settings_count_only_with_a_video(o1: CacheOptions, o2: CacheOptions)
    requires
        !o1.render_video,
        !o2.render_video,
        o1.renderer@ == o2.renderer@,
        Seq::new(o1.renderer_argv@.len(), |i: int| o1.renderer_argv@[i]@) == Seq::new(
            o2.renderer_argv@.len(),
            |i: int| o2.renderer_argv@[i]@,
        ),
        o1.out_dir@ == o2.out_dir@,
        o1.screen_renderer@ == o2.screen_renderer@,
    ensures
        payload_spec(o1) == payload_spec(o2),
{
}

} // verus!
