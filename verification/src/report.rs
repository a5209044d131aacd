//! The report on a decoded container: the regions as upper-case hexadecimal,
//! the strings as labelled lines.

use vstd::prelude::*;
use vstd::string::{StrSliceExecFns, StringExecFns};
use crate::container::{StelData, StelDataView};
use crate::metadata::{text_of, HumanMetadata, HumanMetadataView};

verus! {

/// The sixteen hexadecimal digits, in order.
pub open spec fn hex_digits() -> Seq<char> {
    "0123456789ABCDEF"@
}

/// The character at place `i` of the hexadecimal form of `bytes`: the high
/// digit of a byte stands at an even place, its low digit at the next.
pub open spec fn hex_char(bytes: Seq<u8>, i: int) -> char {
    let byte = bytes[i / 2];
    if i % 2 == 0 {
        hex_digits()[byte as int / 16]
    } else {
        hex_digits()[byte as int % 16]
    }
}

/// `bytes` in upper-case hexadecimal, two digits for each byte and nothing
/// between them.
pub open spec fn hex_of(bytes: Seq<u8>) -> Seq<char> {
    Seq::new(2 * bytes.len(), |i: int| hex_char(bytes, i))
}

/// One labelled line for a field that is present, nothing for one that is
/// absent.
pub open spec fn labelled(label: Seq<char>, field: Option<Seq<char>>) -> Seq<char> {
    match field {
        Some(text) => label + text + "\n"@,
        None => Seq::empty(),
    }
}

impl HumanMetadataView {
    /// The report on the strings: a heading, then one line for each field that
    /// is present.
    pub open spec fn text(self) -> Seq<char> {
        "Human metadata section: \n"@ + labelled("Name: "@, self.name) + labelled(
            "Description: "@,
            self.description,
        ) + labelled("Field 3A: "@, self.field3a) + labelled("Website link: "@, self.website_link)
    }
}

impl StelDataView {
    /// What the report says of the strings: their own report, or one line
    /// that says that there are none.
    pub open spec fn metadata_text(self) -> Seq<char> {
        match self.human_metadata {
            Some(human) => human.text(),
            None => "Failed to parse human metadata.\n"@,
        }
    }

    /// The whole report: both header regions in hexadecimal, the strings, and
    /// the leftover in hexadecimal on a line of its own.
    pub open spec fn text(self) -> Seq<char> {
        "First metadata section: "@ + hex_of(self.metadata0) + "\n"@
            + "Second metadata section: "@ + hex_of(self.metadata1) + "\n"@ + self.metadata_text()
            + "Leftover:\n"@ + hex_of(self.raw_leftover) + "\n"@
    }
}

/// Appends the hexadecimal digit for `nibble` to `out`.
fn write_digit(nibble: u8, out: &mut String)
    requires
        nibble < 16,
    ensures
        final(out)@ == old(out)@.push(hex_digits()[nibble as int]),
{
    let digits = "0123456789ABCDEF";
    proof {
        reveal_strlit("0123456789ABCDEF");
    }
    let digit = digits.substring_ascii(nibble as usize, nibble as usize + 1);
    assert(digit@ =~= seq![hex_digits()[nibble as int]]);
    out.append(digit);
    assert(out@ =~= old(out)@.push(hex_digits()[nibble as int]));
}

/// Appends `bytes` in upper-case hexadecimal, and a line break, to `out`.
pub fn write_bytes(bytes: &[u8], out: &mut String)
    ensures
        final(out)@ == old(out)@ + hex_of(bytes@) + "\n"@,
{
    let mut i: usize = 0;
    while i < bytes.len()
        invariant
            i <= bytes.len(),
            out@ == old(out)@ + hex_of(bytes@.take(i as int)),
        decreases bytes.len() - i,
    {
        let byte = bytes[i];
        write_digit(byte / 16, out);
        write_digit(byte % 16, out);
        i += 1;
        proof {
            let before = bytes@.take(i - 1);
            let upto = bytes@.take(i as int);
            assert forall|k: int| 0 <= k < 2 * (i - 1) implies hex_char(upto, k) == hex_char(
                before,
                k,
            ) by {
                assert(upto[k / 2] == before[k / 2]);
            }
            assert(hex_char(upto, 2 * (i - 1)) == hex_digits()[byte as int / 16]);
            assert(hex_char(upto, 2 * (i - 1) + 1) == hex_digits()[byte as int % 16]);
            assert(hex_of(upto) =~= hex_of(before).push(hex_digits()[byte as int / 16]).push(
                hex_digits()[byte as int % 16],
            ));
            assert(out@ =~= old(out)@ + hex_of(upto));
        }
    }
    assert(bytes@.take(i as int) =~= bytes@);
    out.append("\n");
}

/// Appends the line for `field` under `label` to `out`, where `field` is
/// present.
fn write_labelled(label: &str, field: &Option<String>, out: &mut String)
    ensures
        final(out)@ == old(out)@ + labelled(label@, text_of(*field)),
{
    match field {
        Some(text) => {
            out.append(label);
            out.append(text.as_str());
            out.append("\n");
            assert(out@ =~= old(out)@ + labelled(label@, text_of(*field)));
        },
        None => {
            assert(out@ =~= old(out)@ + labelled(label@, text_of(*field)));
        },
    }
}

impl HumanMetadata {
    /// The report on the strings: the heading `Human metadata section: `, then
    /// one labelled line for each field that is present, in the fixed order.
    pub fn to_text(&self) -> (s: String)
        ensures
            s@ == self@.text(),
    {
        let mut out = String::new();
        out.append("Human metadata section: \n");
        write_labelled("Name: ", &self.name, &mut out);
        write_labelled("Description: ", &self.description, &mut out);
        write_labelled("Field 3A: ", &self.field3a, &mut out);
        write_labelled("Website link: ", &self.website_link, &mut out);
        assert(out@ =~= self@.text());
        out
    }
}

impl StelData {
    /// The report on the container: both header regions in hexadecimal, the
    /// report on the strings or a line that says that there are none, and the
    /// leftover in hexadecimal.
    pub fn to_text(&self) -> (s: String)
        ensures
            s@ == self@.text(),
    {
        let mut out = String::new();
        out.append("First metadata section: ");
        write_bytes(self.metadata0.as_slice(), &mut out);
        out.append("Second metadata section: ");
        write_bytes(self.metadata1.as_slice(), &mut out);
        match &self.human_metadata {
            Some(human) => {
                let text = human.to_text();
                out.append(text.as_str());
            },
            None => {
                out.append("Failed to parse human metadata.\n");
            },
        }
        out.append("Leftover:\n");
        write_bytes(self.raw_leftover.as_slice(), &mut out);
        assert(out@ =~= self@.text());
        out
    }
}

} // verus!
