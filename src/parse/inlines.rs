use vstd::prelude::*;

verus! {

/// An inline node of a paragraph or heading.
#[derive(Debug, PartialEq)]
pub enum Inline {
    Text(String),
}

impl View for Inline {
    type V = Seq<char>;

    open spec fn view(&self) -> Seq<char> {
        match self {
            Inline::Text(s) => s@,
        }
    }
}

/// The texts of a run of inline nodes.
pub open spec fn inlines_view(v: Seq<Inline>) -> Seq<Seq<char>> {
    Seq::new(v.len(), |i: int| v[i]@)
}

/// The text of a run of inline nodes, concatenated.
pub open spec fn inlines_text(v: Seq<Seq<char>>) -> Seq<char>
    decreases v.len(),
{
    if v.len() == 0 {
        Seq::empty()
    } else {
        inlines_text(v.drop_last()) + v.last()
    }
}

impl Inline {
    /// The HTML of this inline node.
    pub fn as_html(&self) -> (r: String)
        ensures
            r@ == self@,
    {
        match self {
            Inline::Text(text) => text.clone(),
        }
    }

    /// The HTML of a run of inline nodes, concatenated.
    pub fn vec_as_html(inlines: &Vec<Inline>) -> (r: String)
        ensures
            r@ == inlines_text(inlines_view(inlines@)),
    {
        let mut html = String::new();
        let mut i: usize = 0;
        while i < inlines.len()
            invariant
                i <= inlines@.len(),
                html@ == inlines_text(inlines_view(inlines@).subrange(0, i as int)),
            decreases inlines@.len() - i,
        {
            assert(inlines_view(inlines@).subrange(0, i + 1).drop_last() =~= inlines_view(
                inlines@,
            ).subrange(0, i as int));
            let s = inlines[i].as_html();
            html.append(s.as_str());
            i = i + 1;
        }
        assert(inlines_view(inlines@).subrange(0, i as int) =~= inlines_view(inlines@));
        html
    }
}

} // verus!
