//! The run context: the three temporary working areas (images, rendered
//! HTML documents, labeled documents) and whether OCR runs. The directories
//! themselves are provisioned outside the library; here they are path
//! strings, and placing a file in an area is path arithmetic.

use vstd::prelude::*;

use crate::strutil::{lemma_concat_prefix, path_join, spec_path_join, spec_str_prefix};

verus! {

/// The context every pipeline stage receives.
#[derive(Debug, PartialEq)]
pub struct App {
    pub tmp_img_dir: String,
    pub tmp_html_dir: String,
    pub tmp_label_dir: String,
    pub process_ocr: bool,
}

impl App {
    /// A context over three provisioned working directories.
    pub fn new(tmp_img_dir: String, tmp_html_dir: String, tmp_label_dir: String, process_ocr: bool) -> (r:
        App)
        ensures
            r.tmp_img_dir@ == tmp_img_dir@,
            r.tmp_html_dir@ == tmp_html_dir@,
            r.tmp_label_dir@ == tmp_label_dir@,
            r.process_ocr == process_ocr,
    {
        App { tmp_img_dir, tmp_html_dir, tmp_label_dir, process_ocr }
    }

    /// A file's path inside a working directory.
    pub fn tmp_file(tmp: &String, file: &str) -> (r: String)
        ensures
            r@ == spec_path_join(tmp@, file@),
    {
        path_join(tmp, file)
    }

    /// A file's path inside the image area.
    pub fn tmp_img(&self, file: &str) -> (r: String)
        ensures
            r@ == spec_path_join(self.tmp_img_dir@, file@),
    {
        Self::tmp_file(&self.tmp_img_dir, file)
    }

    /// A file's path inside the rendered-document area.
    pub fn tmp_html(&self, file: &str) -> (r: String)
        ensures
            r@ == spec_path_join(self.tmp_html_dir@, file@),
    {
        Self::tmp_file(&self.tmp_html_dir, file)
    }

    /// A file's path inside the labeled-document area.
    pub fn tmp_label(&self, file: &str) -> (r: String)
        ensures
            r@ == spec_path_join(self.tmp_label_dir@, file@),
    {
        Self::tmp_file(&self.tmp_label_dir, file)
    }

    /// The three working areas keep out of each other's way: no area's root,
    /// taken with its separator, is a prefix of another's.
    pub open spec fn spec_distinct_areas(&self) -> bool {
        &&& !spec_str_prefix(self.tmp_img_dir@ + "/"@, self.tmp_html_dir@ + "/"@)
        &&& !spec_str_prefix(self.tmp_html_dir@ + "/"@, self.tmp_img_dir@ + "/"@)
        &&& !spec_str_prefix(self.tmp_img_dir@ + "/"@, self.tmp_label_dir@ + "/"@)
        &&& !spec_str_prefix(self.tmp_label_dir@ + "/"@, self.tmp_img_dir@ + "/"@)
        &&& !spec_str_prefix(self.tmp_html_dir@ + "/"@, self.tmp_label_dir@ + "/"@)
        &&& !spec_str_prefix(self.tmp_label_dir@ + "/"@, self.tmp_html_dir@ + "/"@)
    }
}

proof fn lemma_join_distinct(d1: Seq<char>, f1: Seq<char>, d2: Seq<char>, f2: Seq<char>)
    requires
        !spec_str_prefix(d1 + "/"@, d2 + "/"@),
        !spec_str_prefix(d2 + "/"@, d1 + "/"@),
    ensures
        spec_path_join(d1, f1) != spec_path_join(d2, f2),
{
    if spec_path_join(d1, f1) == spec_path_join(d2, f2) {
        assert((d1 + "/"@) + f1 =~= d1 + "/"@ + f1);
        assert((d2 + "/"@) + f2 =~= d2 + "/"@ + f2);
        if (d1 + "/"@).len() <= (d2 + "/"@).len() {
            lemma_concat_prefix(d1 + "/"@, f1, d2 + "/"@, f2);
        } else {
            lemma_concat_prefix(d2 + "/"@, f2, d1 + "/"@, f1);
        }
    }
}

/// Law (working areas): with distinct, prefix-free roots, files placed in
/// different areas never share a path, however they are named — so writers
/// keyed by message and record id cannot collide across areas.
pub proof fn lemma_tmp_areas_disjoint(app: &App, f1: Seq<char>, f2: Seq<char>)
    requires
        app.spec_distinct_areas(),
    ensures
        spec_path_join(app.tmp_img_dir@, f1) != spec_path_join(app.tmp_html_dir@, f2),
        spec_path_join(app.tmp_img_dir@, f1) != spec_path_join(app.tmp_label_dir@, f2),
        spec_path_join(app.tmp_html_dir@, f1) != spec_path_join(app.tmp_label_dir@, f2),
{
    lemma_join_distinct(app.tmp_img_dir@, f1, app.tmp_html_dir@, f2);
    lemma_join_distinct(app.tmp_img_dir@, f1, app.tmp_label_dir@, f2);
    lemma_join_distinct(app.tmp_html_dir@, f1, app.tmp_label_dir@, f2);
}

} // verus!
