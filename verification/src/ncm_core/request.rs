//! Requests: where they go and what they say.

use vstd::prelude::*;

use crate::ncm_core::crypto::hex_digit;
use crate::text::{decimal, decimal_text, join, joined, same_text, texts};

verus! {

#[derive(Clone, Copy, Debug, PartialEq, Eq, Structural)]
pub enum CryptoMode {
    Weapi,
    Eapi,
}

/// A value in the body of a request.
#[derive(Clone, Debug, PartialEq, Eq)]
pub enum Field {
    Text(String),
    Number(u64),
    Flag(bool),
    Ids(Vec<u64>),
}

pub enum FieldView {
    Text(Seq<char>),
    Number(nat),
    Flag(bool),
    Ids(Seq<u64>),
}

impl View for Field {
    type V = FieldView;

    open spec fn view(&self) -> FieldView {
        match *self {
            Field::Text(text) => FieldView::Text(text@),
            Field::Number(n) => FieldView::Number(n as nat),
            Field::Flag(b) => FieldView::Flag(b),
            Field::Ids(ids) => FieldView::Ids(ids@),
        }
    }
}

pub open spec fn field_views(fields: Seq<(String, Field)>) -> Seq<(Seq<char>, FieldView)> {
    fields.map_values(|field: (String, Field)| (field.0@, field.1@))
}

/// Whether a text stands before another in the order of their characters.
pub open spec fn text_before(a: Seq<char>, b: Seq<char>) -> bool
    decreases a.len(),
{
    if b.len() == 0 {
        false
    } else if a.len() == 0 {
        true
    } else if a[0] == b[0] {
        text_before(a.drop_first(), b.drop_first())
    } else {
        a[0] < b[0]
    }
}

/// The fields with one more, in the order of their names; a field takes the
/// place of an earlier one with its name.
pub open spec fn with_field(
    fields: Seq<(Seq<char>, FieldView)>,
    name: Seq<char>,
    value: FieldView,
) -> Seq<(Seq<char>, FieldView)>
    decreases fields.len(),
{
    if fields.len() == 0 {
        seq![(name, value)]
    } else if fields[0].0 == name {
        fields.update(0, (name, value))
    } else if text_before(name, fields[0].0) {
        seq![(name, value)] + fields
    } else {
        seq![fields[0]] + with_field(fields.drop_first(), name, value)
    }
}

fn comes_before(a: &str, b: &str) -> (r: bool)
    ensures
        r == text_before(a@, b@),
{
    let x = crate::text::chars_of(a);
    let y = crate::text::chars_of(b);
    let mut i: usize = 0;
    proof {
        assert(x@.skip(0) =~= x@);
        assert(y@.skip(0) =~= y@);
    }
    while i < x.len() && i < y.len() && x[i] == y[i]
        invariant
            i <= x@.len(),
            i <= y@.len(),
            x@ == a@,
            y@ == b@,
            text_before(a@, b@) == text_before(x@.skip(i as int), y@.skip(i as int)),
        decreases x@.len() - i,
    {
        proof {
            assert(x@.skip(i as int).drop_first() =~= x@.skip(i + 1));
            assert(y@.skip(i as int).drop_first() =~= y@.skip(i + 1));
        }
        i += 1;
    }
    if i >= y.len() {
        false
    } else if i >= x.len() {
        true
    } else {
        x[i] < y[i]
    }
}

/// Where a field with a name goes: the number of fields before it.
spec fn field_place(fields: Seq<(Seq<char>, FieldView)>, name: Seq<char>) -> int
    decreases fields.len(),
{
    if fields.len() == 0 || fields[0].0 == name || text_before(name, fields[0].0) {
        0
    } else {
        1 + field_place(fields.drop_first(), name)
    }
}

proof fn lemma_field_place(fields: Seq<(Seq<char>, FieldView)>, name: Seq<char>, value: FieldView)
    ensures
        0 <= field_place(fields, name) <= fields.len(),
        with_field(fields, name, value) == if field_place(fields, name) < fields.len() && fields[field_place(
            fields,
            name,
        )].0 == name {
            fields.update(field_place(fields, name), (name, value))
        } else {
            fields.insert(field_place(fields, name), (name, value))
        },
    decreases fields.len(),
{
    if fields.len() == 0 {
        assert(fields.insert(0, (name, value)) =~= seq![(name, value)]);
    } else if fields[0].0 == name {
    } else if text_before(name, fields[0].0) {
        assert(fields.insert(0, (name, value)) =~= seq![(name, value)] + fields);
    } else {
        let t = fields.drop_first();
        lemma_field_place(t, name, value);
        let p = field_place(t, name);
        assert(fields =~= seq![fields[0]] + t);
        if p < t.len() && t[p].0 == name {
            assert(fields.update(p + 1, (name, value)) =~= seq![fields[0]] + t.update(p, (name, value)));
        } else {
            assert(fields.insert(p + 1, (name, value)) =~= seq![fields[0]] + t.insert(p, (name, value)));
        }
    }
}

/// Puts a field into a body.
pub fn set_field(fields: &mut Vec<(String, Field)>, name: &str, value: Field)
    ensures
        field_views(final(fields)@) == with_field(field_views(old(fields)@), name@, value@),
{
    let ghost all = field_views(fields@);
    let mut i: usize = 0;
    proof {
        assert(all.skip(0) =~= all);
        lemma_field_place(all, name@, value@);
    }
    while i < fields.len() && !same_text(fields[i].0.as_str(), name) && !comes_before(name, fields[i].0.as_str())
        invariant
            i <= fields@.len(),
            all == field_views(fields@),
            field_place(all, name@) == i + field_place(all.skip(i as int), name@),
        decreases fields@.len() - i,
    {
        proof {
            assert(all.skip(i as int)[0].0 == fields@[i as int].0@);
            assert(all.skip(i as int).drop_first() =~= all.skip(i + 1));
        }
        i += 1;
    }
    proof {
        if i < fields@.len() {
            assert(all.skip(i as int)[0].0 == fields@[i as int].0@);
        }
    }
    let ghost held = fields@;
    let ghost put = value@;
    if i < fields.len() && same_text(fields[i].0.as_str(), name) {
        fields.set(i, (name.to_owned(), value));
        proof {
            assert(field_views(fields@) =~= field_views(held).update(i as int, (name@, put)));
        }
    } else {
        fields.insert(i, (name.to_owned(), value));
        proof {
            assert(field_views(fields@) =~= field_views(held).insert(i as int, (name@, put)));
        }
    }
}

/// A field with a text.
pub fn text_field(text: &str) -> (r: Field)
    ensures
        r@ == FieldView::Text(text@),
{
    Field::Text(text.to_owned())
}

/// A field with a number that is written as text.
pub fn number_field(n: u64) -> (r: Field)
    ensures
        r@ == FieldView::Text(decimal(n as nat)),
{
    Field::Text(decimal_text(n))
}

// Bodies as text.

/// A character as it is written in JSON text: quotation marks, backslashes and
/// control characters are escaped, the latter by a letter where they have one,
/// or else by their number in four hexadecimal digits.
pub open spec fn escaped_char(c: char) -> Seq<char> {
    if c == '"' {
        seq!['\\', '"']
    } else if c == '\\' {
        seq!['\\', '\\']
    } else if c == '\u{8}' {
        seq!['\\', 'b']
    } else if c == '\t' {
        seq!['\\', 't']
    } else if c == '\n' {
        seq!['\\', 'n']
    } else if c == '\u{c}' {
        seq!['\\', 'f']
    } else if c == '\r' {
        seq!['\\', 'r']
    } else if c <= '\u{1f}' {
        seq!['\\', 'u', '0', '0', hex_digit(c as nat / 16), hex_digit(c as nat % 16)]
    } else {
        seq![c]
    }
}

/// A text with each of its characters as it is written in JSON text.
pub open spec fn escaped_text(s: Seq<char>) -> Seq<char>
    decreases s.len(),
{
    if s.len() == 0 {
        s
    } else {
        escaped_text(s.drop_last()) + escaped_char(s.last())
    }
}

/// A text in JSON: in quotation marks, with its special characters escaped.
pub open spec fn json_text(s: Seq<char>) -> Seq<char> {
    seq!['"'] + escaped_text(s) + seq!['"']
}

/// `serde_json::to_string` of a text: the text in quotation marks, with
/// quotation marks, backslashes and control characters escaped.
#[verifier::external_body]
fn quote_json(s: &str) -> (r: String)
    ensures
        r@ == json_text(s@),
{
    serde_json::to_string(s).unwrap()
}

pub open spec fn id_texts(ids: Seq<u64>) -> Seq<Seq<char>> {
    ids.map_values(|id: u64| decimal(id as nat))
}

pub open spec fn field_text(value: FieldView) -> Seq<char> {
    match value {
        FieldView::Text(text) => json_text(text),
        FieldView::Number(n) => decimal(n),
        FieldView::Flag(b) => if b {
            "true"@
        } else {
            "false"@
        },
        FieldView::Ids(ids) => "["@ + joined(id_texts(ids), ","@) + "]"@,
    }
}

pub open spec fn entry_text(field: (Seq<char>, FieldView)) -> Seq<char> {
    json_text(field.0) + ":"@ + field_text(field.1)
}

/// The fields as one JSON object.
pub open spec fn object_text(fields: Seq<(Seq<char>, FieldView)>) -> Seq<char> {
    "{"@ + joined(fields.map_values(|field: (Seq<char>, FieldView)| entry_text(field)), ","@) + "}"@
}

fn write_ids(ids: &Vec<u64>) -> (r: String)
    ensures
        r@ == joined(id_texts(ids@), ","@),
{
    let mut parts: Vec<String> = Vec::new();
    let mut i: usize = 0;
    proof {
        assert(texts(parts@) =~= id_texts(ids@).take(0));
    }
    while i < ids.len()
        invariant
            i <= ids@.len(),
            texts(parts@) == id_texts(ids@).take(i as int),
        decreases ids@.len() - i,
    {
        let ghost held = parts@;
        let part = decimal_text(ids[i]);
        let ghost put = part@;
        parts.push(part);
        proof {
            assert(texts(parts@) =~= texts(held).push(put));
            assert(id_texts(ids@).take(i + 1) =~= id_texts(ids@).take(i as int).push(put));
        }
        i += 1;
    }
    proof {
        assert(id_texts(ids@).take(i as int) =~= id_texts(ids@));
    }
    join(&parts, ",")
}

fn write_field(value: &Field) -> (r: String)
    ensures
        r@ == field_text(value@),
{
    match value {
        Field::Text(text) => quote_json(text.as_str()),
        Field::Number(n) => decimal_text(*n),
        Field::Flag(b) => if *b {
            "true".to_owned()
        } else {
            "false".to_owned()
        },
        Field::Ids(ids) => {
            let mut out: String = "[".to_owned();
            out.append(write_ids(ids).as_str());
            out.append("]");
            out
        },
    }
}

/// Writes fields as one JSON object.
pub fn write_object(fields: &Vec<(String, Field)>) -> (r: String)
    ensures
        r@ == object_text(field_views(fields@)),
{
    let ghost f = |field: (Seq<char>, FieldView)| entry_text(field);
    let ghost all = field_views(fields@).map_values(f);
    let mut parts: Vec<String> = Vec::new();
    let mut i: usize = 0;
    proof {
        assert(texts(parts@) =~= all.take(0));
    }
    while i < fields.len()
        invariant
            i <= fields@.len(),
            f == (|field: (Seq<char>, FieldView)| entry_text(field)),
            all == field_views(fields@).map_values(f),
            texts(parts@) == all.take(i as int),
        decreases fields@.len() - i,
    {
        let mut part: String = quote_json(fields[i].0.as_str());
        part.append(":");
        part.append(write_field(&fields[i].1).as_str());
        let ghost held = parts@;
        let ghost put = part@;
        parts.push(part);
        proof {
            assert(texts(parts@) =~= texts(held).push(put));
            assert(field_views(fields@)[i as int] == (fields@[i as int].0@, fields@[i as int].1@));
            assert(all[i as int] == put);
            assert(all.take(i + 1) =~= all.take(i as int).push(put));
        }
        i += 1;
    }
    proof {
        assert(all.take(i as int) =~= all);
    }
    let mut out: String = "{".to_owned();
    out.append(join(&parts, ",").as_str());
    out.append("}");
    out
}

// Requests.

/// What is asked of the service.
#[derive(Clone, Debug)]
pub struct ApiSpec {
    pub path: String,
    pub crypto: CryptoMode,
    pub payload: Vec<(String, Field)>,
}

#[verifier::ext_equal]
pub struct ApiView {
    pub path: Seq<char>,
    pub crypto: CryptoMode,
    pub payload: Seq<(Seq<char>, FieldView)>,
}

impl View for ApiSpec {
    type V = ApiView;

    open spec fn view(&self) -> ApiView {
        ApiView { path: self.path@, crypto: self.crypto, payload: field_views(self.payload@) }
    }
}

/// A request without fields.
pub open spec fn request_of(path: Seq<char>, crypto: CryptoMode) -> ApiView {
    ApiView { path, crypto, payload: seq![] }
}

impl ApiView {
    /// The request with one more field.
    pub open spec fn adding(self, name: Seq<char>, value: FieldView) -> ApiView {
        ApiView { payload: with_field(self.payload, name, value), ..self }
    }

    pub open spec fn adding_text(self, name: Seq<char>, text: Seq<char>) -> ApiView {
        self.adding(name, FieldView::Text(text))
    }

    /// The request with a number that is written as text.
    pub open spec fn adding_number(self, name: Seq<char>, n: nat) -> ApiView {
        self.adding(name, FieldView::Text(decimal(n)))
    }
}

impl ApiSpec {
    /// A request without fields.
    pub fn post(path: &str, crypto: CryptoMode) -> (r: ApiSpec)
        ensures
            r@ == request_of(path@, crypto),
    {
        let r = ApiSpec { path: path.to_owned(), crypto, payload: Vec::new() };
        proof {
            assert(r@.payload =~= seq![]);
        }
        r
    }

    /// The request with one more field.
    pub fn with(self, name: &str, value: Field) -> (r: ApiSpec)
        ensures
            r@ == self@.adding(name@, value@),
    {
        let mut payload = self.payload;
        set_field(&mut payload, name, value);
        ApiSpec { path: self.path, crypto: self.crypto, payload }
    }

    /// The field with a name.
    pub fn field(&self, name: &str) -> (r: Option<&Field>)
        ensures
            match r {
                Some(value) => exists|i: int|
                    0 <= i < self@.payload.len() && #[trigger] self@.payload[i] == (name@, value@),
                None => forall|i: int| 0 <= i < self@.payload.len() ==> (#[trigger] self@.payload[i]).0 != name@,
            },
    {
        let mut i: usize = 0;
        while i < self.payload.len()
            invariant
                i <= self.payload@.len(),
                forall|j: int| 0 <= j < i ==> (#[trigger] self@.payload[j]).0 != name@,
            decreases self.payload@.len() - i,
        {
            proof {
                assert(self@.payload[i as int] == (self.payload@[i as int].0@, self.payload@[i as int].1@));
            }
            if same_text(self.payload[i].0.as_str(), name) {
                return Some(&self.payload[i].1);
            }
            i += 1;
        }
        None
    }
}

/// What makes two requests with the same content differ.
#[derive(Clone, Debug)]
pub struct RequestEntropy {
    pub weapi_secret: String,
    pub request_id: String,
}

/// A request as it is sent.
#[derive(Clone, Debug)]
pub struct PreparedRequest {
    pub url: String,
    pub query: Vec<(String, String)>,
    pub user_agent: &'static str,
    pub referer: &'static str,
    pub form: Vec<(String, String)>,
    pub crypto: CryptoMode,
}

// Laws.

pub open spec fn is_ordered(fields: Seq<(Seq<char>, FieldView)>) -> bool {
    forall|i: int, j: int| 0 <= i < j < fields.len() ==> text_before((#[trigger] fields[i]).0, (#[trigger] fields[j]).0)
}

proof fn lemma_before_transitive(a: Seq<char>, b: Seq<char>, c: Seq<char>)
    requires
        text_before(a, b),
        text_before(b, c),
    ensures
        text_before(a, c),
    decreases a.len(),
{
    if a.len() > 0 && b.len() > 0 && c.len() > 0 && a[0] == b[0] && b[0] == c[0] {
        lemma_before_transitive(a.drop_first(), b.drop_first(), c.drop_first());
    }
}

proof fn lemma_before_total(a: Seq<char>, b: Seq<char>)
    ensures
        text_before(a, b) || text_before(b, a) || a == b,
        !(text_before(a, b) && text_before(b, a)),
        !text_before(a, a),
    decreases a.len(),
{
    if a.len() > 0 {
        lemma_before_total(a.drop_first(), a.drop_first());
    }
    if a.len() > 0 && b.len() > 0 && a[0] == b[0] {
        lemma_before_total(a.drop_first(), b.drop_first());
        if a.drop_first() == b.drop_first() {
            assert(a =~= seq![a[0]] + a.drop_first());
            assert(b =~= seq![b[0]] + b.drop_first());
        }
    } else if a.len() == 0 && b.len() == 0 {
        assert(a =~= b);
    }
}

/// A field that was put into an ordered body leaves it ordered, is there with
/// its value, and leaves every other field as it was.
pub proof fn lemma_with_field(fields: Seq<(Seq<char>, FieldView)>, name: Seq<char>, value: FieldView)
    requires
        is_ordered(fields),
    ensures
        is_ordered(with_field(fields, name, value)),
        with_field(fields, name, value).contains((name, value)),
        forall|i: int|
            0 <= i < fields.len() && (#[trigger] fields[i]).0 != name ==> with_field(fields, name, value).contains(
                fields[i],
            ),
        forall|i: int|
            0 <= i < with_field(fields, name, value).len() ==> {
                ||| #[trigger] with_field(fields, name, value)[i] == (name, value)
                ||| fields.contains(with_field(fields, name, value)[i])
            },
    decreases fields.len(),
{
    let r = with_field(fields, name, value);
    if fields.len() == 0 {
        assert(r[0] == (name, value));
    } else if fields[0].0 == name {
        assert(r[0] == (name, value));
        assert forall|i: int, j: int| 0 <= i < j < r.len() implies text_before(
            (#[trigger] r[i]).0,
            (#[trigger] r[j]).0,
        ) by {
            assert(text_before(fields[i].0, fields[j].0));
        }
        assert forall|i: int| 0 <= i < fields.len() && (#[trigger] fields[i]).0 != name implies r.contains(fields[i]) by {
            assert(r[i] == fields[i]);
        }
        assert forall|i: int| 0 <= i < r.len() implies #[trigger] r[i] == (name, value) || fields.contains(r[i]) by {
            if i > 0 {
                assert(fields[i] == r[i]);
            }
        }
    } else if text_before(name, fields[0].0) {
        assert(r[0] == (name, value));
        assert forall|i: int, j: int| 0 <= i < j < r.len() implies text_before(
            (#[trigger] r[i]).0,
            (#[trigger] r[j]).0,
        ) by {
            assert(r[j] == fields[j - 1]);
            if i == 0 {
                if j > 1 {
                    assert(text_before(fields[0].0, fields[j - 1].0));
                    lemma_before_transitive(name, fields[0].0, fields[j - 1].0);
                }
            } else {
                assert(r[i] == fields[i - 1]);
            }
        }
        assert forall|i: int| 0 <= i < fields.len() && (#[trigger] fields[i]).0 != name implies r.contains(fields[i]) by {
            assert(r[i + 1] == fields[i]);
        }
        assert forall|i: int| 0 <= i < r.len() implies #[trigger] r[i] == (name, value) || fields.contains(r[i]) by {
            if i > 0 {
                assert(fields[i - 1] == r[i]);
            }
        }
    } else {
        let t = fields.drop_first();
        assert forall|i: int, j: int| 0 <= i < j < t.len() implies text_before(
            (#[trigger] t[i]).0,
            (#[trigger] t[j]).0,
        ) by {
            assert(t[i] == fields[i + 1] && t[j] == fields[j + 1]);
        }
        lemma_with_field(t, name, value);
        lemma_before_total(name, fields[0].0);
        let rest = with_field(t, name, value);
        assert forall|i: int, j: int| 0 <= i < j < r.len() implies text_before(
            (#[trigger] r[i]).0,
            (#[trigger] r[j]).0,
        ) by {
            assert(r[j] == rest[j - 1]);
            if i == 0 {
                if rest[j - 1] != (name, value) {
                    assert(t.contains(rest[j - 1]));
                    let k = choose|k: int| 0 <= k < t.len() && t[k] == rest[j - 1];
                    assert(fields[k + 1] == rest[j - 1]);
                }
            } else {
                assert(r[i] == rest[i - 1]);
            }
        }
        assert(r.contains((name, value))) by {
            let k = choose|k: int| 0 <= k < rest.len() && rest[k] == (name, value);
            assert(r[k + 1] == (name, value));
        }
        assert forall|i: int| 0 <= i < fields.len() && (#[trigger] fields[i]).0 != name implies r.contains(fields[i]) by {
            if i == 0 {
                assert(r[0] == fields[0]);
            } else {
                assert(t[i - 1] == fields[i]);
                assert(rest.contains(t[i - 1]));
                let k = choose|k: int| 0 <= k < rest.len() && rest[k] == t[i - 1];
                assert(r[k + 1] == fields[i]);
            }
        }
        assert forall|i: int| 0 <= i < r.len() implies #[trigger] r[i] == (name, value) || fields.contains(r[i]) by {
            if i == 0 {
                assert(fields[0] == r[0]);
            } else {
                assert(r[i] == rest[i - 1]);
                if rest[i - 1] != (name, value) {
                    let k = choose|k: int| 0 <= k < t.len() && t[k] == rest[i - 1];
                    assert(fields[k + 1] == r[i]);
                }
            }
        }
    }
}

// What requests and their text hold.

/// A field that is added is in the request, and every other field stays; the
/// path and the encryption are those of the request.
pub proof fn lemma_adding(api: ApiView, name: Seq<char>, value: FieldView, other: Seq<char>, held: FieldView)
    requires
        is_ordered(api.payload),
    ensures
        is_ordered(api.adding(name, value).payload),
        api.adding(name, value).payload.contains((name, value)),
        api.payload.contains((other, held)) && other != name ==> api.adding(name, value).payload.contains((other, held)),
        api.adding(name, value).path == api.path,
        api.adding(name, value).crypto == api.crypto,
{
    lemma_with_field(api.payload, name, value);
    if api.payload.contains((other, held)) && other != name {
        let i = choose|i: int| 0 <= i < api.payload.len() && api.payload[i] == (other, held);
        assert(api.payload[i].0 != name);
    }
}

/// A text without quotation marks, backslashes and control characters stands
/// in JSON as it is; a quotation mark, a backslash and a control character
/// get a backslash before them.
pub proof fn lemma_json_text(s: Seq<char>, c: char)
    ensures
        (forall|i: int| 0 <= i < s.len() ==> #[trigger] s[i] != '"' && s[i] != '\\' && s[i] > '\u{1f}') ==> json_text(s)
            == seq!['"'] + s + seq!['"'],
        escaped_text(s.push(c)) == escaped_text(s) + escaped_char(c),
        c == '"' || c == '\\' ==> escaped_char(c) == seq!['\\', c],
        c <= '\u{1f}' ==> escaped_char(c).len() >= 2 && escaped_char(c)[0] == '\\',
        c > '\u{1f}' && c != '"' && c != '\\' ==> escaped_char(c) == seq![c],
    decreases s.len(),
{
    assert(s.push(c).drop_last() =~= s);
    if s.len() > 0 && (forall|i: int|
        0 <= i < s.len() ==> #[trigger] s[i] != '"' && s[i] != '\\' && s[i] > '\u{1f}') {
        let rest = s.drop_last();
        lemma_json_text(rest, c);
        assert(json_text(rest) =~= seq!['"'] + rest + seq!['"']);
        assert(escaped_text(rest) =~= rest) by {
            assert(json_text(rest).len() == escaped_text(rest).len() + 2);
            assert forall|i: int| 0 <= i < rest.len() implies escaped_text(rest)[i] == rest[i] by {
                assert(json_text(rest)[i + 1] == escaped_text(rest)[i]);
            }
        }
        assert(s =~= rest + seq![s.last()]);
        assert(escaped_text(s) == rest + seq![s.last()]);
    }
}

} // verus!
