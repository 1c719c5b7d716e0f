//! Serializing the file model: every classified line is rendered back
//! to text, one text per physical line, in the sequence's order.
use vstd::prelude::*;
use vstd::string::*;

use super::parse::{spec_render_line, LineModel, ParsedLine};
use super::HostsFile;

verus! {

impl HostsFile {
    /// Renders every line of the file back to its text, in order.
    pub fn render_lines(&self) -> (r: Vec<String>)
        ensures
            r.deep_view() == self.lines.deep_view().map_values(
                |l: LineModel| spec_render_line(l),
            ),
    {
        let ghost dv = self.lines.deep_view();
        let mut rendered: Vec<String> = Vec::new();
        let mut i: usize = 0;
        let n: usize = self.lines.len();
        proof {
            assert(rendered.deep_view() =~= dv.take(0).map_values(
                |l: LineModel| spec_render_line(l),
            ));
        }
        while i < n
            invariant
                0 <= i <= n == self.lines.len(),
                dv == self.lines.deep_view(),
                rendered.deep_view() == dv.take(i as int).map_values(
                    |l: LineModel| spec_render_line(l),
                ),
            decreases n - i,
        {
            let line_text = self.lines[i].render();
            let ghost prev = rendered.deep_view();
            rendered.push(line_text);
            proof {
                assert(rendered.deep_view() =~= prev.push(spec_render_line(dv[i as int])));
                assert(rendered.deep_view() =~= dv.take(i + 1).map_values(
                    |l: LineModel| spec_render_line(l),
                ));
            }
            i = i + 1;
        }
        proof {
            assert(dv.take(n as int) =~= dv);
        }
        rendered
    }
}

} // verus!
