//! A markdown document as a sequence of elements, each with its HTML.
use vstd::prelude::*;
use vstd::string::*;

verus! {

/// A part of a document that knows its HTML.
pub trait MarkdownElement {
    spec fn html(&self) -> Seq<char>;

    fn as_html(&self) -> (r: String)
        ensures
            r@ == self.html(),
    ;
}

/// Text that is its own HTML.
pub struct Plain(pub String);

impl MarkdownElement for Plain {
    open spec fn html(&self) -> Seq<char> {
        self.0@
    }

    fn as_html(&self) -> (r: String) {
        self.0.clone()
    }
}

/// The HTML of elements, one after another.
pub open spec fn concat_html<E: MarkdownElement>(elements: Seq<E>) -> Seq<char>
    decreases elements.len(),
{
    if elements.len() == 0 {
        Seq::empty()
    } else {
        concat_html(elements.drop_last()) + elements.last().html()
    }
}

/// A document: its elements in order.
pub struct MarkdownDocument<E>(pub Vec<E>);

impl<E: MarkdownElement> MarkdownDocument<E> {
    /// The HTML of the elements, concatenated.
    pub fn as_html(&self) -> (r: String)
        ensures
            r@ == concat_html(self.0@),
    {
        let mut result = String::new();
        let mut i: usize = 0;
        while i < self.0.len()
            invariant
                i <= self.0.len(),
                result@ == concat_html(self.0@.take(i as int)),
            decreases self.0.len() - i,
        {
            let part = self.0[i].as_html();
            proof {
                assert(self.0@.take(i + 1).drop_last() =~= self.0@.take(i as int));
            }
            result.append(part.as_str());
            i += 1;
        }
        assert(self.0@.take(self.0@.len() as int) =~= self.0@);
        result
    }
}

} // verus!
