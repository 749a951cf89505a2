use vstd::prelude::*;

verus! {

/// `String::push_str` appends the given text to the string.
pub assume_specification[ String::push_str ](s: &mut String, string: &str)
    ensures
        final(s)@ == old(s)@ + string@,
;

/// The text of one line: the label, two spaces, the type descriptor, a colon
/// and a space, and the value.
pub open spec fn line_text(
    label_text: Seq<char>,
    descriptor: Seq<char>,
    value_text: Seq<char>,
) -> Seq<char> {
    label_text + "  "@ + descriptor + ": "@ + value_text
}

/// `line` is a line for an entry whose type descriptor is `descriptor`.
pub open spec fn is_line_for(line: Seq<char>, descriptor: Seq<char>) -> bool {
    exists|label_text: Seq<char>, value_text: Seq<char>|
        line == #[trigger] line_text(label_text, descriptor, value_text)
}

/// Puts the three texts of an entry together as one line.
pub fn compose_line(label_text: &str, descriptor: &str, value_text: &str) -> (line: String)
    ensures
        line@ == line_text(label_text@, descriptor@, value_text@),
{
    let mut line = String::new();
    line.push_str(label_text);
    line.push_str("  ");
    line.push_str(descriptor);
    line.push_str(": ");
    line.push_str(value_text);
    line
}

} // verus!
