//! A `multipart/form-data` request body.

use crate::text::concat;
use rand::Rng;
use vstd::prelude::*;
use vstd::utf8::encode_utf8;

verus! {

/// Whether `c` is an ASCII letter or digit.
pub open spec fn is_alphanumeric(c: char) -> bool {
    ('a' <= c && c <= 'z') || ('A' <= c && c <= 'Z') || ('0' <= c && c <= '9')
}

/// Relies on rand's `Alphanumeric` distribution, sampled from the thread-local
/// generator: `n` characters, each an ASCII letter or digit.
#[verifier::external_body]
fn random_alphanumeric(n: usize) -> (r: String)
    ensures
        r@.len() == n,
        forall|i: int| 0 <= i < n ==> is_alphanumeric(#[trigger] r@[i]),
{
    rand::rng().sample_iter(&rand::distr::Alphanumeric).take(n).map(char::from).collect()
}

/// One field of the form.
pub struct FormField {
    pub name: String,
    pub filename: Option<String>,
    pub content_type: Option<String>,
    pub data: Vec<u8>,
}

/// The text of an optional string, empty where it is absent, wrapped in
/// `before` and `after`.
pub open spec fn opt_wrapped(o: Option<String>, before: Seq<char>, after: Seq<char>) -> Seq<
    char,
> {
    match o {
        Some(s) => before + s@ + after,
        None => Seq::empty(),
    }
}

/// The header lines of a field, up to and including the blank line.
pub open spec fn field_header_of(boundary: Seq<char>, f: FormField) -> Seq<char> {
    "--"@ + boundary + "\r\n"@ + "Content-Disposition: form-data; name=\""@ + f.name@ + "\""@
        + opt_wrapped(f.filename, "; filename=\""@, "\""@) + "\r\n"@ + opt_wrapped(
        f.content_type,
        "Content-Type: "@,
        "\r\n"@,
    ) + "\r\n"@
}

/// The bytes of one field: its header, its data, and a line break.
pub open spec fn field_bytes_of(boundary: Seq<char>, f: FormField) -> Seq<u8> {
    encode_utf8(field_header_of(boundary, f)) + f.data@ + encode_utf8("\r\n"@)
}

/// The bytes of the fields `fs`, in order.
pub open spec fn fields_bytes_of(boundary: Seq<char>, fs: Seq<FormField>) -> Seq<u8>
    decreases fs.len(),
{
    if fs.len() == 0 {
        Seq::empty()
    } else {
        fields_bytes_of(boundary, fs.drop_last()) + field_bytes_of(boundary, fs.last())
    }
}

/// The whole body: every field, then the closing boundary line.
pub open spec fn body_of(boundary: Seq<char>, fs: Seq<FormField>) -> Seq<u8> {
    fields_bytes_of(boundary, fs) + encode_utf8("--"@ + boundary + "--\r\n"@)
}

/// The prefix that every boundary carries before its random part.
pub open spec fn boundary_prefix() -> Seq<char> {
    "----WebKitFormBoundary"@
}

fn append_bytes(out: &mut Vec<u8>, b: &[u8])
    ensures
        final(out)@ == old(out)@ + b@,
{
    let mut i: usize = 0;
    while i < b.len()
        invariant
            i <= b@.len(),
            out@ == old(out)@ + b@.subrange(0, i as int),
        decreases b@.len() - i,
    {
        out.push(b[i]);
        i += 1;
    }
    assert(b@.subrange(0, b@.len() as int) == b@);
}

fn copy_bytes(b: &[u8]) -> (r: Vec<u8>)
    ensures
        r@ == b@,
{
    let mut out: Vec<u8> = Vec::new();
    append_bytes(&mut out, b);
    assert(out@ =~= b@);
    out
}

/// Builds a form body field by field.
pub struct MultipartBuilder {
    boundary: String,
    fields: Vec<FormField>,
}

impl MultipartBuilder {
    pub closed spec fn boundary_text(&self) -> Seq<char> {
        self.boundary@
    }

    pub closed spec fn form_fields(&self) -> Seq<FormField> {
        self.fields@
    }

    /// A builder with no fields and a boundary with 16 random letters and digits.
    pub fn new() -> (r: MultipartBuilder)
        ensures
            r.form_fields().len() == 0,
            r.boundary_text().len() == boundary_prefix().len() + 16,
            r.boundary_text().subrange(0, boundary_prefix().len() as int) == boundary_prefix(),
            forall|i: int|
                boundary_prefix().len() <= i < r.boundary_text().len() ==> is_alphanumeric(
                    #[trigger] r.boundary_text()[i],
                ),
    {
        let token = random_alphanumeric(16);
        let r = MultipartBuilder::with_boundary_token(token.as_str());
        proof {
            reveal_strlit("----WebKitFormBoundary");
            assert(r.boundary_text().subrange(0, boundary_prefix().len() as int)
                =~= boundary_prefix());
            assert forall|i: int|
                boundary_prefix().len() <= i < r.boundary_text().len() implies is_alphanumeric(
                #[trigger] r.boundary_text()[i],
            ) by {
                assert(r.boundary_text()[i] == token@[i - boundary_prefix().len()]);
            }
        }
        r
    }

    /// A builder with no fields whose boundary ends in `token`.
    pub fn with_boundary_token(token: &str) -> (r: MultipartBuilder)
        ensures
            r.form_fields().len() == 0,
            r.boundary_text() == boundary_prefix() + token@,
    {
        MultipartBuilder {
            boundary: concat("----WebKitFormBoundary", token),
            fields: Vec::new(),
        }
    }

    /// Adds a plain field.
    pub fn add_field(self, name: &str, data: &[u8]) -> (r: MultipartBuilder)
        ensures
            r.boundary_text() == self.boundary_text(),
            r.form_fields().len() == self.form_fields().len() + 1,
            r.form_fields().subrange(0, self.form_fields().len() as int) == self.form_fields(),
            ({
                let f = r.form_fields().last();
                f.name@ == name@ && f.filename is None && f.content_type is None && f.data@
                    == data@
            }),
    {
        let mut s = self;
        let field = FormField {
            name: concat(name, ""),
            filename: None,
            content_type: None,
            data: copy_bytes(data),
        };
        proof {
            reveal_strlit("");
            assert(field.name@ =~= name@);
        }
        let ghost before = s.fields@;
        s.fields.push(field);
        assert(s.fields@.subrange(0, before.len() as int) =~= before);
        s
    }

    /// Adds a file field with its file name, content type and contents.
    pub fn add_file(self, name: &str, filename: &str, content_type: &str, data: &[u8]) -> (r:
        MultipartBuilder)
        ensures
            r.boundary_text() == self.boundary_text(),
            r.form_fields().len() == self.form_fields().len() + 1,
            r.form_fields().subrange(0, self.form_fields().len() as int) == self.form_fields(),
            ({
                let f = r.form_fields().last();
                &&& f.name@ == name@
                &&& f.filename matches Some(n) && n@ == filename@
                &&& f.content_type matches Some(c) && c@ == content_type@
                &&& f.data@ == data@
            }),
    {
        let mut s = self;
        let field = FormField {
            name: concat(name, ""),
            filename: Some(concat(filename, "")),
            content_type: Some(concat(content_type, "")),
            data: copy_bytes(data),
        };
        proof {
            reveal_strlit("");
            assert(field.name@ =~= name@);
            assert(field.filename->0@ =~= filename@);
            assert(field.content_type->0@ =~= content_type@);
        }
        let ghost before = s.fields@;
        s.fields.push(field);
        assert(s.fields@.subrange(0, before.len() as int) =~= before);
        s
    }

    /// The boundary that separates the fields.
    pub fn boundary(&self) -> (r: &str)
        ensures
            r@ == self.boundary_text(),
    {
        self.boundary.as_str()
    }

    /// The header lines of `f`.
    fn field_header(&self, f: &FormField) -> (r: String)
        ensures
            r@ == field_header_of(self.boundary@, *f),
    {
        let mut h = concat("--", self.boundary.as_str());
        h.append("\r\n");
        h.append("Content-Disposition: form-data; name=\"");
        h.append(f.name.as_str());
        h.append("\"");
        match &f.filename {
            Some(n) => {
                h.append("; filename=\"");
                h.append(n.as_str());
                h.append("\"");
            },
            None => {},
        }
        h.append("\r\n");
        match &f.content_type {
            Some(c) => {
                h.append("Content-Type: ");
                h.append(c.as_str());
                h.append("\r\n");
            },
            None => {},
        }
        h.append("\r\n");
        h
    }

    /// The request body: each field in the order it was added, then the closing
    /// boundary.
    pub fn build(self) -> (r: Vec<u8>)
        ensures
            r@ == body_of(self.boundary_text(), self.form_fields()),
    {
        let mut out: Vec<u8> = Vec::new();
        let mut i: usize = 0;
        while i < self.fields.len()
            invariant
                i <= self.fields@.len(),
                out@ == fields_bytes_of(self.boundary@, self.fields@.subrange(0, i as int)),
            decreases self.fields@.len() - i,
        {
            let f = &self.fields[i];
            let header = self.field_header(f);
            append_bytes(&mut out, header.as_str().as_bytes());
            append_bytes(&mut out, f.data.as_slice());
            append_bytes(&mut out, "\r\n".as_bytes());
            assert(self.fields@.subrange(0, i + 1).drop_last() == self.fields@.subrange(0, i as int));
            i += 1;
        }
        assert(self.fields@.subrange(0, self.fields@.len() as int) == self.fields@);
        let closing = concat(concat("--", self.boundary.as_str()).as_str(), "--\r\n");
        append_bytes(&mut out, closing.as_str().as_bytes());
        out
    }
}

} // verus!
