use vstd::prelude::*;

verus! {

/// A borrowed path, held as its text.
pub struct Path<'a> {
    text: &'a str,
}

impl<'a> View for Path<'a> {
    type V = Seq<char>;

    closed spec fn view(&self) -> Seq<char> {
        self.text@
    }
}

impl<'a> Path<'a> {
    /// The path that `string` names.
    pub fn new(string: &'a str) -> (r: Path<'a>)
        ensures
            r@ == string@,
    {
        Path { text: string }
    }

    /// The path's text; a path made from text always has one.
    pub fn to_str(&self) -> (r: Option<&'a str>)
        ensures
            r is Some,
            r->Some_0@ == self@,
    {
        Some(self.text)
    }
}

/// An owned path, held as its text.
pub struct PathBuf {
    text: String,
}

impl View for PathBuf {
    type V = Seq<char>;

    closed spec fn view(&self) -> Seq<char> {
        self.text@
    }
}

impl PathBuf {
    /// The path that `text` names.
    pub fn from_string(text: String) -> (r: PathBuf)
        ensures
            r@ == text@,
    {
        PathBuf { text }
    }

    /// The path's text; a path made from text always has one.
    pub fn to_str(&self) -> (r: Option<&str>)
        ensures
            r is Some,
            r->Some_0@ == self@,
    {
        Some(self.text.as_str())
    }
}

} // verus!
