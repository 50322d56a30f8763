//! The text that payload values are shown as: the name they are shown with
//! (or that of their type), their value, and their members indented below
//! them.

use crate::som::{meta_text, SOMTypeMeta};
use crate::som_arrays::SOMArrayType;
use crate::som_enums::{SOMEnumType, SOMEnumTypeItem, SOMEnumTypeWithEndian};
use crate::som_primitives::{SOMPrimitiveType, SOMPrimitiveTypeWithEndian, WirePrim};
use crate::som_strings::SOMStringType;
use crate::text::{push_str, replace_all, replace_char};
use vstd::prelude::*;

verus! {

/// A value with a text to be shown as.
pub trait SOMText {
    /// The text of the value.
    spec fn text(&self) -> Seq<char>;

    /// The text of the value.
    fn to_string(&self) -> (r: String)
        ensures
            r@ == self.text(),
    ;
}

/// The text of the name and description `meta` where there are some, the
/// text `default` otherwise.
pub open spec fn meta_or(meta: Option<SOMTypeMeta>, default: Seq<char>) -> Seq<char> {
    match meta {
        Some(m) => meta_text(m.name(), m.description()),
        None => default,
    }
}

/// The text of a value shown as `d` whose parts' text is `dd`: the parts
/// between `open` and `close` after a line break, after `d` where it is not
/// empty; `empty` where both are empty.
pub open spec fn framed(
    d: Seq<char>,
    dd: Seq<char>,
    open: Seq<char>,
    close: Seq<char>,
    empty: Seq<char>,
) -> Seq<char> {
    if dd.len() > 0 {
        if d.len() == 0 {
            open + dd + "\n"@ + close
        } else {
            d + " "@ + open + dd + "\n"@ + close
        }
    } else if d.len() == 0 {
        empty
    } else {
        d
    }
}

/// The text of a part `t` of a value on a line of its own: indented by a
/// tab, each of its lines too, and followed by a comma.
pub open spec fn indented(t: Seq<char>) -> Seq<char> {
    "\n\t"@ + replace_all(t, '\n', "\n\t"@) + ","@
}

/// The text `s` with each tab replaced by four spaces.
pub open spec fn untabbed(s: Seq<char>) -> Seq<char> {
    replace_all(s, '\t', "    "@)
}

/// The text of the name and description `meta` where there are some, the
/// text `default` otherwise.
pub fn meta_or_text(meta: Option<&SOMTypeMeta>, default: &str) -> (r: String)
    ensures
        r@ == meta_or(
            match meta {
                Some(m) => Some(*m),
                None => None,
            },
            default@,
        ),
{
    match meta {
        Some(m) => m.to_str(),
        None => String::from_str(default),
    }
}

/// The text of a value shown as `d` whose parts' text is `dd`, as `framed`
/// says.
pub fn framed_text(d: String, dd: &String, open: &str, close: &str, empty: &str) -> (r: String)
    ensures
        r@ == framed(d@, dd@, open@, close@, empty@),
{
    if dd.as_str().is_empty() {
        if d.as_str().is_empty() {
            String::from_str(empty)
        } else {
            d
        }
    } else {
        let mut s = d;
        if !s.as_str().is_empty() {
            s.append(" ");
        }
        s.append(open);
        push_str(&mut s, dd);
        s.append("\n");
        s.append(close);
        s
    }
}

/// Appends the text of a part `t` of a value on a line of its own, as
/// `indented` says.
pub fn push_indented(dd: &mut String, t: &String)
    ensures
        final(dd)@ == old(dd)@ + indented(t@),
{
    dd.append("\n\t");
    let inner = replace_char(t.as_str(), '\n', "\n\t");
    push_str(dd, &inner);
    dd.append(",");
    proof {
        assert(final(dd)@ =~= old(dd)@ + indented(t@));
    }
}

/// The text `s` with each tab replaced by four spaces.
pub fn untab(s: &String) -> (r: String)
    ensures
        r@ == untabbed(s@),
{
    replace_char(s.as_str(), '\t', "    ")
}

/// The text of a primitive value: the name it is shown with (or that of its
/// type), followed by its value where it holds one.
pub open spec fn prim_text<T: WirePrim>(p: SOMPrimitiveType<T>) -> Seq<char> {
    let d = meta_or(p.meta, T::name_spec());
    match p.value {
        Some(v) => if d.len() == 0 {
            T::text_spec(v)
        } else {
            d + " : "@ + T::text_spec(v)
        },
        None => if d.len() == 0 {
            T::name_spec()
        } else {
            d
        },
    }
}

impl<T: WirePrim> SOMText for SOMPrimitiveType<T> {
    open spec fn text(&self) -> Seq<char> {
        prim_text(*self)
    }

    fn to_string(&self) -> (r: String) {
        let d = meta_or_text(self.meta(), T::name());
        match self.value {
            Some(v) => {
                let t = T::text(v);
                if d.as_str().is_empty() {
                    t
                } else {
                    let mut s = d;
                    s.append(" : ");
                    push_str(&mut s, &t);
                    s
                }
            },
            None => if d.as_str().is_empty() {
                String::from_str(T::name())
            } else {
                d
            },
        }
    }
}

impl<T: WirePrim> SOMText for SOMPrimitiveTypeWithEndian<T> {
    open spec fn text(&self) -> Seq<char> {
        prim_text(self.primitive)
    }

    fn to_string(&self) -> (r: String) {
        self.primitive.to_string()
    }
}

/// The text of a named value of an enumeration: its name in quotes, then its
/// value.
pub open spec fn item_text<T: WirePrim>(item: SOMEnumTypeItem<T>) -> Seq<char> {
    "'"@ + item.spec_key() + "' : "@ + T::text_spec(item.spec_value())
}

/// The text of an enumeration: the name it is shown with (or "enum"), then
/// the selected item, or a question mark where none is, in braces.
pub open spec fn enum_text<T: WirePrim>(e: SOMEnumType<T>) -> Seq<char> {
    let d = meta_or(e.spec_meta(), "enum"@);
    let dd = if e.spec_variants().len() > 0 {
        match e.selected() {
            Some(item) => "\n\t"@ + item_text(item),
            None => "\n\t'?'"@,
        }
    } else {
        Seq::empty()
    };
    untabbed(framed(d, dd, "{"@, "}"@, "{'?'}"@))
}

impl<T: WirePrim> SOMText for SOMEnumType<T> {
    open spec fn text(&self) -> Seq<char> {
        enum_text(*self)
    }

    fn to_string(&self) -> (r: String) {
        let d = meta_or_text(self.meta(), "enum");
        let mut dd = String::new();
        if self.len() > 0 {
            match self.value() {
                Some(item) => {
                    let (key, value) = item.get();
                    dd.append("\n\t");
                    dd.append("'");
                    dd.append(key);
                    dd.append("' : ");
                    let t = T::text(value);
                    push_str(&mut dd, &t);
                    proof {
                        assert(dd@ =~= "\n\t"@ + item_text(*item));
                    }
                },
                None => {
                    dd.append("\n\t'?'");
                },
            }
        }
        let f = framed_text(d, &dd, "{", "}", "{'?'}");
        untab(&f)
    }
}

impl<T: WirePrim> SOMText for SOMEnumTypeWithEndian<T> {
    open spec fn text(&self) -> Seq<char> {
        enum_text(self.enumeration)
    }

    fn to_string(&self) -> (r: String) {
        self.enumeration().to_string()
    }
}

/// The text of a string: the name it is shown with (or "string"), then its
/// text in quotes.
pub open spec fn string_text(d: Seq<char>, value: Seq<char>) -> Seq<char> {
    if value.len() > 0 {
        if d.len() == 0 {
            "'"@ + value + "'"@
        } else {
            d + " : '"@ + value + "'"@
        }
    } else if d.len() == 0 {
        "''"@
    } else {
        d
    }
}

impl SOMText for SOMStringType {
    open spec fn text(&self) -> Seq<char> {
        string_text(meta_or(self.spec_model().meta, "string"@), self.spec_model().value)
    }

    fn to_string(&self) -> (r: String) {
        let d = meta_or_text(self.meta(), "string");
        let v = self.get();
        if !v.is_empty() {
            if d.as_str().is_empty() {
                let mut s = String::from_str("'");
                s.append(v);
                s.append("'");
                s
            } else {
                let mut s = d;
                s.append(" : '");
                s.append(v);
                s.append("'");
                s
            }
        } else if d.as_str().is_empty() {
            String::from_str("''")
        } else {
            d
        }
    }
}

/// The text of the parts `parts` of a value, each on a line of its own, as
/// `indented` says.
pub open spec fn parts_text(parts: Seq<Seq<char>>) -> Seq<char>
    decreases parts.len(),
{
    if parts.len() == 0 {
        Seq::empty()
    } else {
        parts_text(parts.drop_last()) + indented(parts.last())
    }
}

/// The text of an array shown as `d` whose elements' texts are `parts`.
pub open spec fn array_text(d: Seq<char>, parts: Seq<Seq<char>>) -> Seq<char> {
    untabbed(framed(d, parts_text(parts), "["@, "]"@, "[]"@))
}

impl<T: SOMText> SOMText for SOMArrayType<T> {
    open spec fn text(&self) -> Seq<char> {
        array_text(
            meta_or(self.spec_meta(), "array"@),
            self.spec_elements().map_values(|e: T| e.text()),
        )
    }

    fn to_string(&self) -> (r: String) {
        let ghost parts = self.spec_elements().map_values(|e: T| e.text());
        let d = meta_or_text(self.meta(), "array");
        let mut dd = String::new();
        let mut i: usize = 0;
        while i < self.len()
            invariant
                parts == self.spec_elements().map_values(|e: T| e.text()),
                i <= self.spec_elements().len(),
                dd@ == parts_text(parts.take(i as int)),
            decreases self.spec_elements().len() - i,
        {
            match self.get(i) {
                Some(e) => {
                    let t = e.to_string();
                    push_indented(&mut dd, &t);
                },
                None => {},
            }
            proof {
                assert(parts.take(i + 1).drop_last() =~= parts.take(i as int));
            }
            i = i + 1;
        }
        proof {
            assert(parts.take(i as int) =~= parts);
        }
        let f = framed_text(d, &dd, "[", "]", "[]");
        untab(&f)
    }
}

} // verus!
