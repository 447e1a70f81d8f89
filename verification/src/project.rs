//! The project being edited: its name, the file name it is saved under, and the server's
//! endpoints.

use vstd::prelude::*;

use crate::text::{chars_of, push_char, push_chars};

verus! {

/// Whether a character is alphabetic or numeric in the Unicode sense.
pub uninterp spec fn char_is_alphanumeric(c: char) -> bool;

pub open spec fn is_ascii_alphanumeric(c: char) -> bool {
    ('a' <= c <= 'z') || ('A' <= c <= 'Z') || ('0' <= c <= '9')
}

/// Whether a character is alphanumeric.
///
/// Trusted: calls `char::is_alphanumeric`, documented as true exactly for characters that are
/// alphabetic or numeric in the Unicode sense. The contract names that result and states only
/// that on ASCII characters it is true exactly for the letters and digits.
#[verifier::external_body]
fn is_alphanumeric(c: char) -> (b: bool)
    ensures
        b == char_is_alphanumeric(c),
        (c as u32) < 128 ==> (b <==> is_ascii_alphanumeric(c)),
{
    c.is_alphanumeric()
}

/// The name of the project.
pub struct ProjectName(pub String);

/// A character as it appears in a project's file name: alphanumeric characters and spaces stay,
/// all others become `_`.
pub open spec fn filename_char(c: char) -> char {
    if char_is_alphanumeric(c) || c == ' ' {
        c
    } else {
        '_'
    }
}

pub open spec fn project_suffix() -> Seq<char> {
    seq!['.', 'p', 'r', 'i', 's', 'm', 'a', 't', 'a']
}

impl Default for ProjectName {
    /// A new project's name.
    fn default() -> (p: ProjectName)
        ensures
            p.0@ == "New Project"@,
    {
        ProjectName(String::from_str("New Project"))
    }
}

impl ProjectName {
    pub open spec fn spec_filename(&self) -> Seq<char> {
        self.0@.map_values(|c: char| filename_char(c)) + project_suffix()
    }

    /// The file name the project is saved under: its name with every character other than
    /// alphanumerics and spaces replaced by `_`, followed by `.prismata`.
    pub fn as_filename(&self) -> (name: String)
        ensures
            name@ == self.spec_filename(),
    {
        let chars = chars_of(self.0.as_str());
        let mut name = String::new();
        let mut i: usize = 0;
        while i < chars.len()
            invariant
                chars@ == self.0@,
                i <= chars.len(),
                name@ == chars@.subrange(0, i as int).map_values(|c: char| filename_char(c)),
            decreases chars.len() - i,
        {
            let c = chars[i];
            let mapped = if is_alphanumeric(c) || c == ' ' {
                c
            } else {
                '_'
            };
            push_char(&mut name, mapped);
            i += 1;
            assert(name@ =~= chars@.subrange(0, i as int).map_values(|c: char| filename_char(c)));
        }
        assert(chars@.subrange(0, chars.len() as int) =~= chars@);
        let suffix = chars_of(".prismata");
        proof {
            reveal_strlit(".prismata");
        }
        assert(suffix@ =~= project_suffix());
        push_chars(&mut name, &suffix);
        name
    }
}

/// The address of the HTTP server used for authentication and other out-of-band requests.
pub struct HttpEndpoints {
    pub render_url: String,
}

impl HttpEndpoints {
    /// The endpoints of the server at `server`: renders are requested at `{server}/prism/render`.
    pub fn from_server(server: &str) -> (e: HttpEndpoints)
        ensures
            e.render_url@ == server@ + "/prism/render"@,
    {
        let render_url = String::from_str(server).concat("/prism/render");
        HttpEndpoints { render_url }
    }
}

/// Whether the world is being edited or played.
#[derive(Clone, Copy, Debug, PartialEq, Eq, Structural, Hash)]
pub enum AppState {
    Edit,
    Play,
}

impl Default for AppState {
    fn default() -> (s: AppState)
        ensures
            s == AppState::Edit,
    {
        AppState::Edit
    }
}

impl AppState {
    pub fn to_string(&self) -> (s: String)
        ensures
            s@ == match self {
                AppState::Edit => "Edit"@,
                AppState::Play => "Play"@,
            },
    {
        match self {
            AppState::Edit => String::from_str("Edit"),
            AppState::Play => String::from_str("Play"),
        }
    }
}

} // verus!
