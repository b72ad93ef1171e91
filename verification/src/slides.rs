//! The list of slides and which of them is selected.

use vstd::prelude::*;

verus! {

/// The models of the file names, element-wise.
pub open spec fn name_views(names: Seq<String>) -> Seq<Seq<char>> {
    names.map_values(|s: String| s@)
}

/// The slide files on offer and the index of the selected one.
#[derive(Debug, PartialEq, Eq)]
pub struct Slides {
    file_names: Vec<String>,
    selected_slide: usize,
}

impl Slides {
    /// The file names, in display order.
    pub closed spec fn spec_file_names(&self) -> Seq<Seq<char>> {
        name_views(self.file_names@)
    }

    /// The index of the selected slide.
    pub closed spec fn spec_selected(&self) -> int {
        self.selected_slide as int
    }

    /// The file names, in display order.
    pub fn file_names(&self) -> (r: &Vec<String>)
        ensures
            name_views(r@) == self.spec_file_names(),
    {
        &self.file_names
    }

    /// The index of the selected slide.
    pub fn selected_slide(&self) -> (r: usize)
        ensures
            r as int == self.spec_selected(),
    {
        self.selected_slide
    }

    /// Selects the slide at the given index, as a click on its name does.
    pub fn select(&mut self, index: usize)
        requires
            index < old(self).spec_file_names().len(),
        ensures
            final(self).spec_selected() == index as int,
            final(self).spec_file_names() == old(self).spec_file_names(),
    {
        self.selected_slide = index;
    }
}

impl Default for Slides {
    /// The placeholder slide list, with the first slide selected.
    fn default() -> (r: Self)
        ensures
            r.spec_file_names() == seq!["Foo"@, "Bar"@, "Baz"@],
            r.spec_selected() == 0,
    {
        let mut file_names: Vec<String> = Vec::new();
        file_names.push(String::from_str("Foo"));
        file_names.push(String::from_str("Bar"));
        file_names.push(String::from_str("Baz"));
        let slides = Slides { file_names, selected_slide: 0 };
        proof {
            assert(slides.spec_file_names() =~= seq!["Foo"@, "Bar"@, "Baz"@]);
        }
        slides
    }
}

} // verus!
