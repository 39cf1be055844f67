//! JavaScript identifiers and quoted text.

use crate::text;
use vstd::prelude::*;

verus! {

/// The characters that may stand in an identifier: ASCII letters and digits, `_` and `$`.
pub open spec fn ident_char(c: char) -> bool {
    text::ascii_letter(c) || text::ascii_digit(c) || c == '_' || c == '$'
}

pub fn is_ident_char(c: char) -> (r: bool)
    ensures
        r == ident_char(c),
{
    text::is_ascii_letter(c) || text::is_ascii_digit(c) || c == '_' || c == '$'
}

/// A name that can stand as an identifier: not empty, made of identifier characters, and not
/// beginning with a digit.
pub open spec fn valid_identifier(s: Seq<char>) -> bool {
    &&& s.len() > 0
    &&& !text::ascii_digit(s[0])
    &&& forall|i: int| 0 <= i < s.len() ==> ident_char(#[trigger] s[i])
}

pub fn is_valid_identifier(s: &str) -> (r: bool)
    ensures
        r == valid_identifier(s@),
{
    let v = text::chars_of(s);
    if v.len() == 0 || text::is_ascii_digit(v[0]) {
        return false;
    }
    let mut i: usize = 0;
    while i < v.len()
        invariant
            v@ == s@,
            i <= v.len(),
            forall|k: int| 0 <= k < i ==> ident_char(#[trigger] s@[k]),
        decreases v.len() - i,
    {
        if !is_ident_char(v[i]) {
            assert(!ident_char(s@[i as int]));
            return false;
        }
        i += 1;
    }
    true
}

/// `s` with every character that cannot stand in an identifier replaced by `_`.
pub open spec fn identifier_chars(s: Seq<char>) -> Seq<char> {
    Seq::new(
        s.len(),
        |i: int|
            if ident_char(s[i]) {
                s[i]
            } else {
                '_'
            },
    )
}

/// The identifier nearest to `s`: other characters become `_`, and a leading digit gets a `_`
/// before it. The empty name stays empty.
pub open spec fn sanitized(s: Seq<char>) -> Seq<char> {
    if s.len() > 0 && text::ascii_digit(s[0]) {
        seq!['_'] + identifier_chars(s)
    } else {
        identifier_chars(s)
    }
}

pub fn sanitize_identifier(s: &str) -> (r: String)
    ensures
        r@ == sanitized(s@),
{
    let v = text::chars_of(s);
    let mut out = String::new();
    if v.len() > 0 && text::is_ascii_digit(v[0]) {
        out.push('_');
    }
    let ghost head = out@;
    let mut i: usize = 0;
    while i < v.len()
        invariant
            v@ == s@,
            i <= v.len(),
            out@ == head + identifier_chars(s@).take(i as int),
        decreases v.len() - i,
    {
        let c: char = if is_ident_char(v[i]) {
            v[i]
        } else {
            '_'
        };
        out.push(c);
        assert(identifier_chars(s@).take(i + 1) =~= identifier_chars(s@).take(i as int).push(c));
        i += 1;
    }
    assert(out@ =~= head + identifier_chars(s@));
    assert(out@ =~= sanitized(s@));
    out
}

/// A nonempty name is always turned into a valid identifier.
pub proof fn lemma_sanitized_is_valid(s: Seq<char>)
    requires
        s.len() > 0,
    ensures
        valid_identifier(sanitized(s)),
{
}

/// A valid identifier is left as it is.
pub proof fn lemma_sanitized_keeps_valid(s: Seq<char>)
    requires
        valid_identifier(s),
    ensures
        sanitized(s) == s,
{
    assert(identifier_chars(s) =~= s);
}

/// The escape of one character inside a double-quoted JavaScript string.
pub open spec fn escaped_char(c: char) -> Seq<char> {
    if c == '\\' {
        seq!['\\', '\\']
    } else if c == '"' {
        seq!['\\', '"']
    } else if c == '\n' {
        seq!['\\', 'n']
    } else if c == '\r' {
        seq!['\\', 'r']
    } else if c == '\t' {
        seq!['\\', 't']
    } else {
        seq![c]
    }
}

/// The body of a double-quoted JavaScript string, without the quotes.
pub open spec fn escaped(s: Seq<char>) -> Seq<char>
    decreases s.len(),
{
    if s.len() == 0 {
        Seq::empty()
    } else {
        escaped(s.drop_last()) + escaped_char(s.last())
    }
}

pub fn escape_js_string_bare(s: &str) -> (r: String)
    ensures
        r@ == escaped(s@),
{
    let v = text::chars_of(s);
    let mut out = String::new();
    let mut i: usize = 0;
    while i < v.len()
        invariant
            v@ == s@,
            i <= v.len(),
            out@ == escaped(s@.take(i as int)),
        decreases v.len() - i,
    {
        let c: char = v[i];
        let ghost before = out@;
        assert(s@.take(i + 1).drop_last() =~= s@.take(i as int));
        if c == '\\' {
            out.push('\\');
            out.push('\\');
        } else if c == '"' {
            out.push('\\');
            out.push('"');
        } else if c == '\n' {
            out.push('\\');
            out.push('n');
        } else if c == '\r' {
            out.push('\\');
            out.push('r');
        } else if c == '\t' {
            out.push('\\');
            out.push('t');
        } else {
            out.push(c);
        }
        assert(out@ =~= before + escaped_char(c));
        i += 1;
    }
    assert(s@.take(s@.len() as int) =~= s@);
    out
}

/// A double-quoted JavaScript string literal.
pub open spec fn quoted(s: Seq<char>) -> Seq<char> {
    "\""@ + escaped(s) + "\""@
}

pub fn quote(s: &str) -> (r: String)
    ensures
        r@ == quoted(s@),
{
    text::concat3("\"", &escape_js_string_bare(s), "\"")
}

/// The names that the global object is known to hold.
pub open spec fn builtin_global(s: Seq<char>) -> bool {
    ||| s == "Object"@
    ||| s == "Function"@
    ||| s == "Array"@
    ||| s == "Number"@
    ||| s == "Boolean"@
    ||| s == "String"@
    ||| s == "Symbol"@
    ||| s == "BigInt"@
    ||| s == "Math"@
    ||| s == "JSON"@
    ||| s == "Date"@
    ||| s == "RegExp"@
    ||| s == "Promise"@
    ||| s == "Proxy"@
    ||| s == "Reflect"@
    ||| s == "Map"@
    ||| s == "Set"@
    ||| s == "WeakMap"@
    ||| s == "WeakSet"@
    ||| s == "Error"@
    ||| s == "TypeError"@
    ||| s == "RangeError"@
    ||| s == "SyntaxError"@
    ||| s == "ReferenceError"@
    ||| s == "parseInt"@
    ||| s == "parseFloat"@
    ||| s == "isNaN"@
    ||| s == "isFinite"@
    ||| s == "console"@
    ||| s == "setTimeout"@
    ||| s == "clearTimeout"@
    ||| s == "setInterval"@
    ||| s == "clearInterval"@
}

pub fn is_builtin_global(s: &str) -> (r: bool)
    ensures
        r == builtin_global(s@),
{
    text::same(s, "Object") || text::same(s, "Function") || text::same(s, "Array") || text::same(
        s,
        "Number",
    ) || text::same(s, "Boolean") || text::same(s, "String") || text::same(s, "Symbol")
        || text::same(s, "BigInt") || text::same(s, "Math") || text::same(s, "JSON") || text::same(
        s,
        "Date",
    ) || text::same(s, "RegExp") || text::same(s, "Promise") || text::same(s, "Proxy")
        || text::same(s, "Reflect") || text::same(s, "Map") || text::same(s, "Set") || text::same(
        s,
        "WeakMap",
    ) || text::same(s, "WeakSet") || text::same(s, "Error") || text::same(s, "TypeError")
        || text::same(s, "RangeError") || text::same(s, "SyntaxError") || text::same(
        s,
        "ReferenceError",
    ) || text::same(s, "parseInt") || text::same(s, "parseFloat") || text::same(s, "isNaN")
        || text::same(s, "isFinite") || text::same(s, "console") || text::same(s, "setTimeout")
        || text::same(s, "clearTimeout") || text::same(s, "setInterval") || text::same(
        s,
        "clearInterval",
    )
}

/// The name of the `n`-th register: `r` and the number.
pub open spec fn register_name(n: u32) -> Seq<char> {
    "r"@ + text::decimal(n as nat)
}

pub fn name_of_register(n: u32) -> (r: String)
    ensures
        r@ == register_name(n),
{
    text::concat2("r", &text::decimal_of(n as u64))
}

/// A prefix with a decimal number behind it.
pub open spec fn numbered(prefix: Seq<char>, n: nat) -> Seq<char> {
    prefix + text::decimal(n)
}

pub fn number_name(prefix: &str, n: u64) -> (r: String)
    ensures
        r@ == numbered(prefix@, n as nat),
{
    text::concat2(prefix, &text::decimal_of(n))
}

} // verus!
