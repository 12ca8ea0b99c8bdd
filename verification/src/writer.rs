//! The line writer for upstream blocks: every prefix and every instance
//! fragment becomes one indented, semicolon-terminated line.

use vstd::prelude::*;
use vstd::string::StringExecFns;

verus! {

/// One written line: four spaces of indent, the text, a semicolon and a
/// newline.
pub open spec fn spec_terminated(output: Seq<char>) -> Seq<char> {
    "    "@ + output + ";\n"@
}

/// Writes the body lines of one upstream block into a text buffer.
pub struct UpstreamSectionEntry {
    pub buffer: String,
}

impl UpstreamSectionEntry {
    pub fn new(buffer: String) -> (r: Self)
        ensures
            r.buffer == buffer,
    {
        UpstreamSectionEntry { buffer }
    }

    /// Hand the accumulated text back.
    pub fn into_buffer(self) -> (r: String)
        ensures
            r == self.buffer,
    {
        self.buffer
    }

    fn write_terminated(&mut self, output: &str)
        ensures
            final(self).buffer@ == old(self).buffer@ + spec_terminated(output@),
    {
        self.buffer.append("    ");
        self.buffer.append(output);
        self.buffer.append(";\n");
    }

    /// Write a prefix line.
    pub fn write_out_prepended(&mut self, output: &str)
        ensures
            final(self).buffer@ == old(self).buffer@ + spec_terminated(output@),
    {
        self.write_terminated(output)
    }

    /// Write one enabled instance's fragment line.
    pub fn write_out_entry(&mut self, output: &str)
        ensures
            final(self).buffer@ == old(self).buffer@ + spec_terminated(output@),
    {
        self.write_terminated(output)
    }
}

} // verus!
