//! The list of the themes that come with the program: one line for each,
//! with the theme's name and what it says of itself.

use vstd::prelude::*;
use vstd::string::*;
use crate::codec::document_meta;
use crate::document::{get_in, Node};
use crate::error::Position;
use crate::theme::text_of;
use crate::yaml::{node_of, parse, yaml_documents};

verus! {

/// The number of characters of `./themes/`, the directory in front of the
/// name of a bundled theme.
pub const PREFIX_LEN: usize = 9;

/// The width to which the name of a theme is filled up with spaces.
pub const NAME_WIDTH: usize = 18;

/// The name under which a bundled file is listed: the file's name without
/// the directory of the themes.
pub open spec fn entry_name(file: Seq<char>) -> Seq<char> {
    if file.len() >= PREFIX_LEN {
        file.skip(PREFIX_LEN as int)
    } else {
        Seq::empty()
    }
}

/// `n` spaces; none where `n` is not positive.
pub open spec fn spaces(n: int) -> Seq<char> {
    Seq::new(
        if n > 0 {
            n as nat
        } else {
            0
        },
        |i: int| ' ',
    )
}

/// The line of the list for one theme.
pub open spec fn listed(file: Seq<char>, description: Seq<char>) -> Seq<char> {
    "  "@ + entry_name(file) + spaces(NAME_WIDTH - entry_name(file).len()) + " - "@ + description
}

/// What the first document of a text says its theme is, if it says
/// anything; or the place where the parser refuses the text, which for a
/// text without a document is its start.
pub open spec fn described(text: Seq<char>) -> Result<Option<Seq<char>>, Position> {
    match yaml_documents(text) {
        Err(p) => Err(p),
        Ok(docs) => if docs.len() == 0 {
            Err(Position::spec_start())
        } else {
            Ok(document_meta(docs[0]).description)
        },
    }
}

/// Writes the line of the list for the theme in the bundled file `file`.
pub fn listing_line(file: &str, description: &str) -> (line: String)
    ensures
        line@ == listed(file@, description@),
{
    proof {
        reveal_strlit("");
        reveal_strlit(" ");
    }
    let n = file.unicode_len();
    let name = if n >= PREFIX_LEN {
        file.substring_char(PREFIX_LEN, n)
    } else {
        ""
    };
    assert(name@ =~= entry_name(file@));
    let mut line = String::from_str("  ").concat(name);
    let mut width: usize = name.unicode_len();
    let ghost start = width;
    while width < NAME_WIDTH
        invariant
            start <= width,
            width <= NAME_WIDTH || width == start,
            start == entry_name(file@).len(),
            line@ == "  "@ + entry_name(file@) + spaces(width - start),
            " "@ == seq![' '],
        decreases NAME_WIDTH - width,
    {
        line.append(" ");
        width += 1;
        assert(line@ =~= "  "@ + entry_name(file@) + spaces(width - start));
    }
    assert(spaces(width - start) =~= spaces(NAME_WIDTH - entry_name(file@).len()));
    let line = line.concat(" - ").concat(description);
    line
}

/// Reads what a document says its theme is.
pub fn description_of(root: &Node) -> (r: Option<String>)
    ensures
        text_of(r) == document_meta(root@).description,
{
    match get_in(root.get("meta"), "description") {
        Some(n) => match n.text() {
            Some(s) => Some(s.clone()),
            None => None,
        },
        None => None,
    }
}

/// Reads, from the text of a theme document, what the theme says of itself.
/// A theme that says nothing cannot be listed.
pub fn description(document: &str) -> (r: Result<Option<String>, Position>)
    ensures
        match r {
            Ok(d) => described(document@) == Ok::<Option<Seq<char>>, Position>(text_of(d)),
            Err(p) => described(document@) == Err::<Option<Seq<char>>, Position>(p),
        },
{
    match parse(document) {
        Err(p) => Err(p),
        Ok(docs) => {
            if docs.len() == 0 {
                Err(Position::start())
            } else {
                let root = node_of(&docs[0]);
                Ok(description_of(&root))
            }
        },
    }
}

} // verus!
