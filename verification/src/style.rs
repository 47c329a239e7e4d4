//! Text with the colours that it is shown in.
use vstd::prelude::*;

verus! {

/// How text is shown.
#[derive(Copy, Clone, PartialEq, Eq, Structural, Debug)]
pub enum Style {
    Plain,
    Bold,
    BoldCyan,
    BoldGreen,
    BoldRed,
    Cyan,
    Green,
    Red,
}

/// A piece of text that is shown in one way.
pub struct Fragment {
    pub style: Style,
    pub text: String,
}

/// A piece of text that is shown in one way, as a value.
pub struct FragmentView {
    pub style: Style,
    pub text: Seq<char>,
}

impl View for Fragment {
    type V = FragmentView;

    open spec fn view(&self) -> FragmentView {
        FragmentView { style: self.style, text: self.text@ }
    }
}

impl DeepView for Fragment {
    type V = FragmentView;

    open spec fn deep_view(&self) -> FragmentView {
        self@
    }
}

/// A piece of text.
pub open spec fn piece(style: Style, text: Seq<char>) -> FragmentView {
    FragmentView { style, text }
}

/// A piece of text.
pub fn fragment(style: Style, text: &str) -> (r: Fragment)
    ensures
        r@ == piece(style, text@),
{
    Fragment { style, text: text.to_owned() }
}

/// Text as it is shown, without its colours.
pub open spec fn plain_text(fragments: Seq<FragmentView>) -> Seq<char>
    decreases fragments.len(),
{
    if fragments.len() == 0 {
        Seq::empty()
    } else {
        plain_text(fragments.drop_last()) + fragments.last().text
    }
}

/// Text as it is shown, without its colours.
pub fn plain(fragments: &Vec<Fragment>) -> (r: String)
    ensures
        r@ == plain_text(fragments.deep_view()),
{
    let ghost all = fragments.deep_view();
    let mut r: String = String::new();
    let mut i: usize = 0;
    assert(r@ =~= plain_text(all.take(0)));
    while i < fragments.len()
        invariant
            i <= fragments.len(),
            all == fragments.deep_view(),
            r@ == plain_text(all.take(i as int)),
        decreases fragments.len() - i,
    {
        assert(all[i as int] == fragments@[i as int]@);
        assert(all.take(i + 1).drop_last() =~= all.take(i as int));
        r.append(fragments[i].text.as_str());
        i += 1;
    }
    assert(all.take(all.len() as int) =~= all);
    r
}

/// Adds a line to a list.
pub fn add_line(lines: &mut Vec<Vec<Fragment>>, line: Vec<Fragment>)
    ensures
        final(lines).deep_view() == old(lines).deep_view().push(line.deep_view()),
{
    let ghost before = lines.deep_view();
    let ghost added = line.deep_view();
    lines.push(line);
    assert(lines.deep_view() =~= before.push(added));
}

/// What is shown of pieces is the text of each, one after another, whatever its colour.
pub proof fn law_plain_text(
    a: Seq<FragmentView>,
    b: Seq<FragmentView>,
    style: Style,
    text: Seq<char>,
)
    ensures
        plain_text(a + b) == plain_text(a) + plain_text(b),
        plain_text(seq![piece(style, text)]) == text,
        plain_text(Seq::empty()) == Seq::<char>::empty(),
    decreases b.len(),
{
    reveal_with_fuel(plain_text, 2);
    assert(seq![piece(style, text)].drop_last() =~= Seq::empty());
    assert(Seq::<char>::empty() + text =~= text);
    if b.len() == 0 {
        assert(a + b =~= a);
        assert(plain_text(a) + plain_text(b) =~= plain_text(a));
    } else {
        law_plain_text(a, b.drop_last(), style, text);
        assert((a + b).drop_last() =~= a + b.drop_last());
        assert(plain_text(a + b) =~= plain_text(a) + plain_text(b));
    }
}

} // verus!
