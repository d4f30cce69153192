//! Documentation of configuration fields: a reference for the terminal and
//! a commented example file, built from each field's name, type,
//! description, default, example and environment variable.
use vstd::prelude::*;
use crate::text::{chars_of, replace, replace_all, string_of, text_lines, trim, trim_white, views};

verus! {

/// Documentation for a configuration field.
pub struct DocField {
    pub name: &'static str,
    pub type_text: &'static str,
    pub description: &'static str,
    pub default: Option<&'static str>,
    pub example: Option<&'static str>,
    pub env: Option<&'static str>,
    pub required: bool,
    pub nested: Option<Vec<DocField>>,
}

/// A type name as shown: standard library paths shortened, spaces trimmed.
pub open spec fn cleaned_type(t: Seq<char>) -> Seq<char> {
    trim_white(
        replace_all(
            replace_all(
                replace_all(replace_all(t, "std::collections::HashMap"@, "map"@), "std::collections::HashSet"@, "set"@),
                "alloc::string::String"@,
                "string"@,
            ),
            "alloc::vec::Vec"@,
            "array"@,
        ),
    )
}

/// A type name as shown: standard library paths shortened, spaces trimmed.
pub fn clean_type_text(type_text: &str) -> (r: String)
    ensures
        r@ == cleaned_type(type_text@),
{
    proof {
        reveal_strlit("std::collections::HashMap");
        reveal_strlit("std::collections::HashSet");
        reveal_strlit("alloc::string::String");
        reveal_strlit("alloc::vec::Vec");
    }
    let t = chars_of(type_text);
    let a = replace(t.as_slice(), chars_of("std::collections::HashMap").as_slice(), chars_of("map").as_slice());
    let b = replace(a.as_slice(), chars_of("std::collections::HashSet").as_slice(), chars_of("set").as_slice());
    let c = replace(b.as_slice(), chars_of("alloc::string::String").as_slice(), chars_of("string").as_slice());
    let d = replace(c.as_slice(), chars_of("alloc::vec::Vec").as_slice(), chars_of("array").as_slice());
    let e = trim(d.as_slice());
    string_of(e.as_slice())
}

/// An optional line: `prefix`, the value and a newline, when there is a
/// value.
pub open spec fn opt_line(prefix: Seq<char>, value: Option<&str>) -> Seq<char> {
    match value {
        Some(v) => prefix + v@ + "\n"@,
        None => Seq::empty(),
    }
}

/// The reference entry of a field.
pub open spec fn field_doc(f: DocField) -> Seq<char> {
    "\x1b[1m\x1b[36m"@ + f.name@ + "\x1b[0m"@ + (if f.required { " (required)"@ } else { Seq::empty() })
        + "\n"@ + "  \x1b[2mType:\x1b[0m "@ + cleaned_type(f.type_text@) + "\n"@ + (if f.description@.len() > 0 {
        "  "@ + f.description@ + "\n"@
    } else {
        Seq::empty()
    }) + opt_line("  \x1b[2mDefault:\x1b[0m "@, f.default) + opt_line("  \x1b[2mExample:\x1b[0m "@, f.example)
        + opt_line("  \x1b[2mEnv:\x1b[0m "@, f.env) + "\n"@
}

/// Appends `prefix`, the value and a newline when there is a value.
fn push_opt_line(out: &mut String, prefix: &str, value: Option<&str>)
    ensures
        final(out)@ == old(out)@ + opt_line(prefix@, value),
{
    match value {
        Some(v) => {
            out.append(prefix);
            out.append(v);
            out.append("\n");
        },
        None => {},
    }
}

/// Formats the reference entry of a field.
pub fn format_field(field: &DocField) -> (r: String)
    ensures
        r@ == field_doc(*field),
{
    let mut out = String::new();
    out.append("\x1b[1m\x1b[36m");
    out.append(field.name);
    out.append("\x1b[0m");
    if field.required {
        out.append(" (required)");
    }
    out.append("\n");
    out.append("  \x1b[2mType:\x1b[0m ");
    let t = clean_type_text(field.type_text);
    out.append(t.as_str());
    out.append("\n");
    let desc = chars_of(field.description);
    if desc.len() > 0 {
        out.append("  ");
        out.append(field.description);
        out.append("\n");
    }
    push_opt_line(&mut out, "  \x1b[2mDefault:\x1b[0m ", field.default);
    push_opt_line(&mut out, "  \x1b[2mExample:\x1b[0m ", field.example);
    push_opt_line(&mut out, "  \x1b[2mEnv:\x1b[0m ", field.env);
    out.append("\n");
    proof {
        assert(out@ =~= field_doc(*field));
    }
    out
}

/// The description as comment lines.
pub open spec fn comment_lines(lines: Seq<Seq<char>>) -> Seq<char>
    decreases lines.len(),
{
    if lines.len() == 0 {
        Seq::empty()
    } else {
        comment_lines(lines.drop_last()) + "# "@ + lines.last() + "\n"@
    }
}

/// The example entry of a field: its description as comments, its default
/// as a comment, then the field with its example, or commented out with
/// its type when it has no example.
pub open spec fn example_doc(f: DocField) -> Seq<char> {
    (if f.description@.len() > 0 {
        comment_lines(text_lines(f.description@))
    } else {
        Seq::empty()
    }) + opt_line("# Default: "@, f.default) + match f.example {
        Some(e) => f.name@ + ": "@ + e@ + "\n\n"@,
        None => "# "@ + f.name@ + ": <"@ + cleaned_type(f.type_text@) + ">\n\n"@,
    }
}

/// Formats the example entry of a field.
pub fn format_example_field(field: &DocField) -> (r: String)
    ensures
        r@ == example_doc(*field),
{
    let mut out = String::new();
    let desc = chars_of(field.description);
    if desc.len() > 0 {
        let lines = crate::text::lines_of(field.description);
        let mut i: usize = 0;
        while i < lines.len()
            invariant
                i <= lines@.len(),
                out@ == comment_lines(views(lines@).take(i as int)),
            decreases lines@.len() - i,
        {
            proof {
                assert(views(lines@).take(i + 1).drop_last() =~= views(lines@).take(i as int));
            }
            out.append("# ");
            out.append(lines[i].as_str());
            out.append("\n");
            i += 1;
        }
        assert(views(lines@).take(lines@.len() as int) =~= views(lines@));
    }
    let ghost head = out@;
    push_opt_line(&mut out, "# Default: ", field.default);
    match field.example {
        Some(e) => {
            out.append(field.name);
            out.append(": ");
            out.append(e);
            out.append("\n\n");
        },
        None => {
            out.append("# ");
            out.append(field.name);
            out.append(": <");
            let t = clean_type_text(field.type_text);
            out.append(t.as_str());
            out.append(">\n\n");
        },
    }
    proof {
        assert(out@ =~= example_doc(*field));
    }
    out
}

/// `s` repeated `n` times.
pub open spec fn repeated(s: Seq<char>, n: nat) -> Seq<char>
    decreases n,
{
    if n == 0 {
        Seq::empty()
    } else {
        repeated(s, (n - 1) as nat) + s
    }
}

/// The heading of a reference: the header in bold, underlined with one
/// rule character per byte of the header.
pub open spec fn header_doc(header: &str) -> Seq<char> {
    if header@.len() == 0 {
        Seq::empty()
    } else {
        "\x1b[1m"@ + header@ + "\x1b[0m\n"@ + repeated("─"@, header.len() as nat) + "\n\n"@
    }
}

/// The reference entries of some fields, in order.
pub open spec fn fields_doc(fields: Seq<DocField>) -> Seq<char>
    decreases fields.len(),
{
    if fields.len() == 0 {
        Seq::empty()
    } else {
        fields_doc(fields.drop_last()) + field_doc(fields.last())
    }
}

/// The example entries of some fields, in order.
pub open spec fn fields_example(fields: Seq<DocField>) -> Seq<char>
    decreases fields.len(),
{
    if fields.len() == 0 {
        Seq::empty()
    } else {
        fields_example(fields.drop_last()) + example_doc(fields.last())
    }
}

/// The reference for a header and its fields.
pub fn generate_docs_for(header: &str, fields: &Vec<DocField>) -> (r: String)
    ensures
        r@ == header_doc(header) + fields_doc(fields@),
{
    let mut out = String::new();
    let h = chars_of(header);
    if h.len() > 0 {
        out.append("\x1b[1m");
        out.append(header);
        out.append("\x1b[0m\n");
        let width = header.len();
        let ghost start = out@;
        let mut k: usize = 0;
        while k < width
            invariant
                k <= width,
                out@ == start + repeated("─"@, k as nat),
            decreases width - k,
        {
            out.append("─");
            k += 1;
        }
        out.append("\n\n");
    }
    proof {
        assert(out@ =~= header_doc(header));
    }
    let ghost head = out@;
    let mut j: usize = 0;
    while j < fields.len()
        invariant
            j <= fields@.len(),
            out@ == head + fields_doc(fields@.take(j as int)),
        decreases fields@.len() - j,
    {
        proof {
            assert(fields@.take(j + 1).drop_last() =~= fields@.take(j as int));
        }
        let f = format_field(&fields[j]);
        out.append(f.as_str());
        j += 1;
    }
    assert(fields@.take(fields@.len() as int) =~= fields@);
    out
}

/// The example file for some fields.
pub fn generate_example_for(fields: &Vec<DocField>) -> (r: String)
    ensures
        r@ == fields_example(fields@),
{
    let mut out = String::new();
    let mut j: usize = 0;
    while j < fields.len()
        invariant
            j <= fields@.len(),
            out@ == fields_example(fields@.take(j as int)),
        decreases fields@.len() - j,
    {
        proof {
            assert(fields@.take(j + 1).drop_last() =~= fields@.take(j as int));
        }
        let f = format_example_field(&fields[j]);
        out.append(f.as_str());
        j += 1;
    }
    assert(fields@.take(fields@.len() as int) =~= fields@);
    out
}

/// Trait for configuration documentation.
pub trait ConfigDoc: Sized {
    /// Header text for the documentation (e.g., struct name); none unless
    /// the type gives one.
    fn doc_header() -> (r: &'static str)
        default_ensures
            r@ == Seq::<char>::empty(),
    {
        proof {
            reveal_strlit("");
        }
        ""
    }

    /// List of documentation fields
    fn doc_fields() -> Vec<DocField>;

    /// Generate formatted documentation string: the heading of the type's
    /// header, then the reference entry of each of its fields.
    fn generate_docs() -> (r: String)
        default_ensures
            exists|h: &'static str, f: Vec<DocField>|
                call_ensures(Self::doc_header, (), h) && call_ensures(Self::doc_fields, (), f) && r@
                    == header_doc(h) + fields_doc(f@),
    {
        generate_docs_for(Self::doc_header(), &Self::doc_fields())
    }

    /// Generate example YAML with comments: the example entry of each of the
    /// type's fields.
    fn generate_example() -> (r: String)
        default_ensures
            exists|f: Vec<DocField>| call_ensures(Self::doc_fields, (), f) && r@ == fields_example(f@),
    {
        generate_example_for(&Self::doc_fields())
    }
}

} // verus!
