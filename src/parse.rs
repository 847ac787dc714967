//! Format detection, parsing, and normalization into [`TreeValue`].
use vstd::prelude::*;
use crate::config::Config;
use crate::source::{
    container_text, json_accepts, keyed_layer, layer_of, read_json, read_toml, read_yaml, toml_accepts,
    yaml_stream_len, Layer, RawValue,
};
use crate::tree::{layout, paths_distinct, views, Tree};
use crate::value::{keys_distinct, TreeValue};

verus! {

/// A source format.
#[derive(Clone, Copy, Debug, PartialEq, Eq, Structural)]
pub enum ContentType {
    Json,
    Yaml,
    Toml,
}

/// Why a document could not be loaded.
#[derive(Debug)]
pub enum ParseError {
    /// The named format's parser rejected the text, with its message.
    Format(ContentType, String),
    /// No format parsed the text.
    UnknownFormat,
}

/// The deepest nesting that normalization follows; a container below it
/// is read as null. serde_json and serde_yaml refuse documents that nest
/// deeper than 128 levels, so for them the limit is never reached.
pub const MAX_DEPTH: usize = 1024;

/// Position of a format in the auto-detection order.
pub open spec fn rank(c: ContentType) -> int {
    match c {
        ContentType::Json => 0,
        ContentType::Yaml => 1,
        ContentType::Toml => 2,
    }
}

/// The format's adapter succeeds on `s`. A YAML stream must hold at least
/// one document.
pub open spec fn accepts(c: ContentType, s: Seq<char>) -> bool {
    match c {
        ContentType::Json => json_accepts(s),
        ContentType::Yaml => yaml_stream_len(s) matches Some(n) && n > 0,
        ContentType::Toml => toml_accepts(s),
    }
}

/// The format that auto-detection picks: the first in the order JSON,
/// YAML, TOML whose adapter succeeds.
pub open spec fn detect(s: Seq<char>) -> Option<ContentType> {
    if accepts(ContentType::Json, s) {
        Some(ContentType::Json)
    } else if accepts(ContentType::Yaml, s) {
        Some(ContentType::Yaml)
    } else if accepts(ContentType::Toml, s) {
        Some(ContentType::Toml)
    } else {
        None
    }
}

/// Loading `s` succeeds: the given format accepts it, or, with no format
/// given, one of the three does.
pub open spec fn loads(content_type: Option<ContentType>, s: Seq<char>) -> bool {
    match content_type {
        Some(c) => accepts(c, s),
        None => detect(s) is Some,
    }
}

/// The format whose adapter produces the value when loading succeeds: the
/// given one, or the one auto-detection picks.
pub open spec fn chosen_format(content_type: Option<ContentType>, s: Seq<char>) -> Option<
    ContentType,
> {
    match content_type {
        Some(c) => Some(c),
        None => detect(s),
    }
}

/// A raw YAML value read from `s` holds all of a stream of several
/// documents, in order.
pub open spec fn stream_kept(v: RawValue, s: Seq<char>) -> bool {
    format_of(v) == ContentType::Yaml && yaml_stream_len(s) is Some && yaml_stream_len(s)->0 > 1
        ==> (v matches RawValue::YamlStream(d) && d@.len() == yaml_stream_len(s)->0)
}

/// The format a raw value came from.
pub open spec fn format_of(raw: RawValue) -> ContentType {
    match raw {
        RawValue::Json(_) => ContentType::Json,
        RawValue::Yaml(_) => ContentType::Yaml,
        RawValue::YamlStream(_) => ContentType::Yaml,
        RawValue::Toml(_) => ContentType::Toml,
    }
}

/// Auto-detection picks an accepting format, and no format before it in
/// the order accepts the text.
pub proof fn lemma_detect_first(s: Seq<char>)
    ensures
        detect(s) matches Some(c) ==> accepts(c, s) && forall|d: ContentType|
            rank(d) < rank(c) ==> !#[trigger] accepts(d, s),
        detect(s) is None ==> forall|d: ContentType| !#[trigger] accepts(d, s),
{
}

/// How a YAML stream becomes one value, by its number of documents: none is an error,
/// one is that document, more are a sequence of them in order.
pub enum DocumentCount {
    Empty,
    Single,
    Many,
}

/// The shape a YAML stream of `n` documents takes.
pub fn document_count(n: usize) -> (r: DocumentCount)
    ensures
        r is Empty <==> n == 0,
        r is Single <==> n == 1,
        r is Many <==> n > 1,
{
    if n == 0 {
        DocumentCount::Empty
    } else if n == 1 {
        DocumentCount::Single
    } else {
        DocumentCount::Many
    }
}

impl ContentType {
    /// Runs this format's adapter alone.
    pub fn parse(&self, s: &str) -> (r: Result<RawValue, ParseError>)
        ensures
            r is Ok <==> accepts(*self, s@),
            r matches Ok(v) ==> format_of(v) == *self,
            r matches Ok(v) ==> stream_kept(v, s@),
            r matches Err(e) ==> e matches ParseError::Format(c, _) && c == *self,
    {
        match self {
            ContentType::Json => match read_json(s) {
                Ok(v) => Ok(RawValue::Json(v)),
                Err(m) => Err(ParseError::Format(ContentType::Json, m)),
            },
            ContentType::Yaml => match read_yaml(s) {
                Ok(mut docs) => match document_count(docs.len()) {
                    DocumentCount::Empty => Err(
                        ParseError::Format(ContentType::Yaml, "no document in yaml data".to_owned()),
                    ),
                    DocumentCount::Single => Ok(RawValue::Yaml(docs.remove(0))),
                    DocumentCount::Many => Ok(RawValue::YamlStream(docs)),
                },
                Err(m) => Err(ParseError::Format(ContentType::Yaml, m)),
            },
            ContentType::Toml => match read_toml(s) {
                Ok(v) => Ok(RawValue::Toml(v)),
                Err(m) => Err(ParseError::Format(ContentType::Toml, m)),
            },
        }
    }
}

/// Parses `s` in the given format, or detects the format: JSON, then YAML,
/// then TOML, the first adapter that succeeds wins.
pub fn parse_raw(s: &str, content_type: Option<ContentType>) -> (r: Result<RawValue, ParseError>)
    ensures
        content_type matches Some(c) ==> {
            &&& r is Ok <==> accepts(c, s@)
            &&& r matches Ok(v) ==> format_of(v) == c
            &&& r matches Err(e) ==> e matches ParseError::Format(f, _) && f == c
        },
        r matches Ok(v) ==> stream_kept(v, s@),
        content_type is None ==> {
            &&& r is Ok <==> detect(s@) is Some
            &&& r matches Ok(v) ==> detect(s@) == Some(format_of(v))
            &&& r matches Err(e) ==> e is UnknownFormat
        },
{
    if let Some(c) = content_type {
        return c.parse(s);
    }
    let order = [ContentType::Json, ContentType::Yaml, ContentType::Toml];
    let mut k: usize = 0;
    while k < 3
        invariant
            content_type is None,
            order@ == seq![ContentType::Json, ContentType::Yaml, ContentType::Toml],
            k <= 3,
            forall|j: int| 0 <= j < k ==> !accepts(#[trigger] order@[j], s@),
        decreases 3 - k,
    {
        if let Ok(v) = order[k].parse(s) {
            proof {
                if k >= 1 {
                    assert(!accepts(order@[0], s@));
                }
                if k >= 2 {
                    assert(!accepts(order@[1], s@));
                }
            }
            return Ok(v);
        }
        k += 1;
    }
    assert(!accepts(order@[0], s@) && !accepts(order@[1], s@) && !accepts(order@[2], s@));
    Err(ParseError::UnknownFormat)
}

/// The field name a YAML mapping key takes: a string as it is, a number in
/// its notation, a boolean as `true`/`false`, anything else the empty string.
pub open spec fn field_name_of(key: Layer) -> Seq<char> {
    match key {
        Layer::Str(s) => s@,
        Layer::Number(n) => n@,
        Layer::Bool(b) => if b {
            "true"@
        } else {
            "false"@
        },
        _ => Seq::empty(),
    }
}

/// The normalized value of a scalar layer; `None` for a container.
pub open spec fn scalar_of(layer: Layer) -> Option<TreeValue> {
    match layer {
        Layer::Null => Some(TreeValue::Null),
        Layer::Tagged => Some(TreeValue::Null),
        Layer::Bool(b) => Some(TreeValue::Bool(b)),
        Layer::Number(n) => Some(TreeValue::Number(n)),
        Layer::Str(s) => Some(TreeValue::String(s)),
        Layer::Datetime(s) => Some(TreeValue::String(s)),
        _ => None,
    }
}

/// The field name of a YAML mapping key.
pub fn field_name(key: Layer) -> (r: String)
    ensures
        r@ == field_name_of(key),
{
    match key {
        Layer::Str(s) => s,
        Layer::Number(n) => n,
        Layer::Bool(b) => if b {
            "true".to_owned()
        } else {
            "false".to_owned()
        },
        _ => String::new(),
    }
}

/// No two fields share a name.
pub open spec fn names_distinct(f: Seq<(String, TreeValue)>) -> bool {
    forall|i: int, j: int|
        0 <= i < f.len() && 0 <= j < f.len() && i != j ==> #[trigger] f[i].0@ != #[trigger] f[j].0@
}

/// Sets field `name` to `value`: a field of that name takes the new value
/// in its place (the last write wins), otherwise the field is appended.
pub fn insert_field(fields: &mut Vec<(String, TreeValue)>, name: String, value: TreeValue)
    ensures
        (exists|j: int| 0 <= j < old(fields)@.len() && old(fields)@[j].0@ == name@) ==> exists|j: int|
            0 <= j < old(fields)@.len() && old(fields)@[j].0@ == name@ && final(fields)@
                == old(fields)@.update(j, (name, value)),
        !(exists|j: int| 0 <= j < old(fields)@.len() && old(fields)@[j].0@ == name@)
            ==> final(fields)@ == old(fields)@.push((name, value)),
        names_distinct(old(fields)@) ==> names_distinct(final(fields)@),
{
    let mut j: usize = 0;
    while j < fields.len()
        invariant
            j <= fields@.len(),
            fields@ == old(fields)@,
            forall|i: int| 0 <= i < j ==> old(fields)@[i].0@ != name@,
        decreases fields@.len() - j,
    {
        if fields[j].0 == name {
            let ghost before = fields@;
            fields.set(j, (name, value));
            proof {
                assert(old(fields)@[j as int].0@ == fields@[j as int].0@);
                if names_distinct(before) {
                    assert forall|a: int, b: int|
                        0 <= a < fields@.len() && 0 <= b < fields@.len() && a != b implies #[trigger] fields@[a].0@
                            != #[trigger] fields@[b].0@ by {
                        assert(before[a].0@ != before[b].0@);
                    }
                }
            }
            return;
        }
        j += 1;
    }
    fields.push((name, value));
}

/// Normalizes one level given as `layer`, read from `raw`, with `depth`
/// more levels allowed: a container with no depth left is read as null.
pub fn from_layer(layer: Layer, raw: &RawValue, depth: usize) -> (r: TreeValue)
    requires
        keyed_layer(layer),
    ensures
        scalar_of(layer) matches Some(v) ==> r == v,
        scalar_of(layer) is None && depth == 0 ==> r is Null,
        depth > 0 ==> (layer matches Layer::Array(items) ==> r is Array && r.child_count()
            == items@.len()),
        depth > 0 ==> (layer matches Layer::Object(fields) ==> {
            &&& r is Object
            &&& r.child_count() == fields@.len()
            &&& forall|i: int|
                0 <= i < fields@.len() ==> (#[trigger] r->Object_0@[i]).0@ == fields@[i].0@
        }),
        depth > 0 ==> (layer matches Layer::Mapping(pairs) ==> r is Object && r.child_count()
            <= pairs@.len()),
        keys_distinct(r),
    decreases depth, 0nat,
{
    match layer {
        Layer::Null => TreeValue::Null,
        Layer::Tagged => TreeValue::Null,
        Layer::Bool(b) => TreeValue::Bool(b),
        Layer::Number(n) => TreeValue::Number(n),
        Layer::Str(s) => TreeValue::String(s),
        Layer::Datetime(s) => TreeValue::String(s),
        Layer::Array(items) => {
            if depth == 0 {
                return TreeValue::Null;
            }
            let mut out: Vec<TreeValue> = Vec::new();
            let mut k: usize = 0;
            while k < items.len()
                invariant
                    0 < depth,
                    k <= items@.len(),
                    out@.len() == k,
                    forall|i: int| 0 <= i < k ==> keys_distinct(#[trigger] out@[i]),
                decreases items@.len() - k,
            {
                let child = normalize_at(&items[k], depth - 1);
                out.push(child);
                k += 1;
            }
            TreeValue::Array(out, container_text(raw))
        },
        Layer::Object(fields) => {
            if depth == 0 {
                return TreeValue::Null;
            }
            let mut out: Vec<(String, TreeValue)> = Vec::new();
            let mut k: usize = 0;
            while k < fields.len()
                invariant
                    0 < depth,
                    k <= fields@.len(),
                    out@.len() == k,
                    forall|i: int| 0 <= i < k ==> (#[trigger] out@[i]).0@ == fields@[i].0@,
                    forall|i: int, j: int|
                        0 <= i < fields@.len() && 0 <= j < fields@.len() && i != j ==> #[trigger] fields@[i].0@
                            != #[trigger] fields@[j].0@,
                    forall|i: int| 0 <= i < k ==> keys_distinct(#[trigger] out@[i].1),
                decreases fields@.len() - k,
            {
                let child = normalize_at(&fields[k].1, depth - 1);
                out.push((fields[k].0.clone(), child));
                k += 1;
            }
            proof {
                assert forall|i: int, j: int|
                    0 <= i < out@.len() && 0 <= j < out@.len() && i != j implies #[trigger] out@[i].0@
                        != #[trigger] out@[j].0@ by {
                    assert(fields@[i].0@ != fields@[j].0@);
                }
            }
            TreeValue::Object(out, container_text(raw))
        },
        Layer::Mapping(pairs) => {
            if depth == 0 {
                return TreeValue::Null;
            }
            let mut out: Vec<(String, TreeValue)> = Vec::new();
            let mut k: usize = 0;
            while k < pairs.len()
                invariant
                    0 < depth,
                    k <= pairs@.len(),
                    out@.len() <= k,
                    names_distinct(out@),
                    forall|i: int| 0 <= i < out@.len() ==> keys_distinct(#[trigger] out@[i].1),
                decreases pairs@.len() - k,
            {
                let name = field_name(layer_of(&pairs[k].0));
                let child = normalize_at(&pairs[k].1, depth - 1);
                let ghost before = out@;
                let ghost added = child;
                insert_field(&mut out, name, child);
                proof {
                    assert forall|i: int| 0 <= i < out@.len() implies keys_distinct(#[trigger] out@[i].1) by {
                        if i < before.len() && out@[i] == before[i] {
                        } else {
                            assert(out@[i].1 == added);
                        }
                    }
                }
                k += 1;
            }
            TreeValue::Object(out, container_text(raw))
        },
    }
}

/// Normalizes a raw value, following at most `depth` levels of nesting.
pub fn normalize_at(raw: &RawValue, depth: usize) -> (r: TreeValue)
    ensures
        keys_distinct(r),
        depth > 0 ==> (raw matches RawValue::YamlStream(d) ==> r is Array && r.child_count()
            == d@.len()),
    decreases depth, 1nat,
{
    from_layer(layer_of(raw), raw, depth)
}

/// Normalizes a raw value into the unified model. Every object keeps one
/// field per name.
pub fn normalize(raw: &RawValue) -> (r: TreeValue)
    ensures
        keys_distinct(r),
        raw matches RawValue::YamlStream(d) ==> r is Array && r.child_count() == d@.len(),
{
    normalize_at(raw, MAX_DEPTH)
}

/// Parses `s` (in the given format, or detecting it) and normalizes it.
pub fn parse_str(s: &str, content_type: Option<ContentType>) -> (r: Result<TreeValue, ParseError>)
    ensures
        r is Ok <==> loads(content_type, s@),
        r matches Err(e) ==> (content_type matches Some(c) ==> e matches ParseError::Format(f, _)
            && f == c),
        r matches Err(e) ==> (content_type is None ==> e is UnknownFormat),
        r matches Ok(v) ==> keys_distinct(v),
        r matches Ok(v) ==> (chosen_format(content_type, s@) == Some(ContentType::Yaml)
            && yaml_stream_len(s@) is Some && yaml_stream_len(s@)->0 > 1 ==> v is Array
            && v.child_count() == yaml_stream_len(s@)->0),
{
    let raw = parse_raw(s, content_type)?;
    Ok(normalize(&raw))
}

impl Tree {
    /// Loads a document and builds its tree with the configured icons.
    pub fn parse(cfg: &Config, data: &str, content_type: Option<ContentType>) -> (r: Result<
        Tree,
        ParseError,
    >)
        ensures
            r is Ok <==> loads(content_type, data@),
            r matches Err(e) ==> (content_type matches Some(c) ==> e matches ParseError::Format(
                f,
                _,
            ) && f == c),
            r matches Err(e) ==> (content_type is None ==> e is UnknownFormat),
            r matches Ok(t) ==> t.wf(),
            r matches Ok(t) ==> exists|v: TreeValue| #[trigger] layout(v, cfg.icons) == views(t.nodes@),
            r matches Ok(t) ==> paths_distinct(t.nodes@),
    {
        let value = parse_str(data, content_type)?;
        let tree = Tree::build(&value, &cfg.icons);
        assert(layout(value, cfg.icons) == views(tree.nodes@));
        Ok(tree)
    }
}

} // verus!
