use vstd::prelude::*;

verus! {

/// The output buffer: a preamble (declarations, fixed opening) and a body
/// (statement code), both append-only, serialized preamble first.
pub struct Emitter {
    full_path: &'static str,
    header: String,
    code: String,
}

impl Emitter {
    /// The preamble written so far.
    pub closed spec fn header_text(&self) -> Seq<char> {
        self.header@
    }

    /// The body written so far.
    pub closed spec fn body_text(&self) -> Seq<char> {
        self.code@
    }

    /// Where the artifact is meant to be written.
    pub closed spec fn path(&self) -> Seq<char> {
        self.full_path@
    }

    pub fn new(full_path: &'static str) -> (r: Self)
        ensures
            r.header_text() == Seq::<char>::empty(),
            r.body_text() == Seq::<char>::empty(),
            r.path() == full_path@,
    {
        Emitter { full_path, header: String::new(), code: String::new() }
    }

    /// Appends a fragment to the body.
    pub fn emit(&mut self, code: &str)
        ensures
            final(self).body_text() == old(self).body_text() + code@,
            final(self).header_text() == old(self).header_text(),
            final(self).path() == old(self).path(),
    {
        self.code.append(code);
    }

    /// Appends a fragment and a line terminator to the body.
    pub fn emit_line(&mut self, code: &str)
        ensures
            final(self).body_text() == old(self).body_text() + code@ + "\n"@,
            final(self).header_text() == old(self).header_text(),
            final(self).path() == old(self).path(),
    {
        self.code.append(code);
        self.code.append("\n");
    }

    /// Appends a fragment and a line terminator to the preamble.
    pub fn header_line(&mut self, code: &str)
        ensures
            final(self).header_text() == old(self).header_text() + code@ + "\n"@,
            final(self).body_text() == old(self).body_text(),
            final(self).path() == old(self).path(),
    {
        self.header.append(code);
        self.header.append("\n");
    }

    /// The complete artifact: the preamble, then the body.
    pub fn finalize(&self) -> (r: String)
        ensures
            r@ == self.header_text() + self.body_text(),
    {
        let mut r = self.header.clone();
        r.append(self.code.as_str());
        r
    }

    pub fn full_path(&self) -> (r: &'static str)
        ensures
            r@ == self.path(),
    {
        self.full_path
    }
}

} // verus!
