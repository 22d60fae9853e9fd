//! The pieces that a LaTeX document is written from.

use vstd::prelude::*;

verus! {

/// A piece of a LaTeX document.
pub enum LatexElement {
    /// Elements between the `\begin` and the `\end` of the given name.
    Environment { name: String, elements: Vec<LatexElement> },
    /// A command with its options and arguments.
    Directive { name: String, opts: Vec<String>, args: Vec<String> },
    /// Text as it stands.
    Raw(String),
}

/// The first `count` items, each between the two given characters.
pub open spec fn wrapped(items: Seq<String>, left: char, right: char, count: nat) -> Seq<char>
    decreases count,
{
    if count == 0 || count > items.len() {
        Seq::empty()
    } else {
        wrapped(items, left, right, (count - 1) as nat) + seq![left] + items[count - 1]@
            + seq![right]
    }
}

/// The text of raw LaTeX: the text between two spaces.
pub open spec fn raw_text(text: Seq<char>) -> Seq<char> {
    seq![' '] + text + seq![' ']
}

/// The text of a directive with one argument and no option.
pub open spec fn heading_text(name: Seq<char>, title: Seq<char>) -> Seq<char> {
    seq!['\\'] + name + seq!['{'] + title + seq!['}'] + seq![' ']
}

impl LatexElement {
    /// The text of the element.
    ///
    /// - A directive is a backslash and its name, each option in square
    ///   brackets, each argument in braces, and a space.
    /// - An environment is its `\begin`, the texts of its elements, and its
    ///   `\end`, each of the two with the name in braces and a space behind
    ///   it.
    /// - Raw text stands between two spaces.
    pub open spec fn rendered(self) -> Seq<char>
        decreases self, 0nat,
    {
        match self {
            LatexElement::Directive { name, opts, args } => seq!['\\'] + name@ + wrapped(
                opts@,
                '[',
                ']',
                opts@.len(),
            ) + wrapped(args@, '{', '}', args@.len()) + seq![' '],
            LatexElement::Environment { name, elements } => "\\begin{"@ + name@ + "} "@
                + Self::rendered_first(elements, elements@.len()) + "\\end{"@ + name@ + "} "@,
            LatexElement::Raw(value) => seq![' '] + value@ + seq![' '],
        }
    }

    /// The texts of the first `count` elements, one behind the other.
    pub open spec fn rendered_first(elements: Vec<LatexElement>, count: nat) -> Seq<char>
        decreases elements, count,
    {
        if count == 0 || count > elements@.len() {
            Seq::empty()
        } else {
            proof {
                vstd::std_specs::vec::axiom_vec_index_decreases(elements, count - 1);
            }
            Self::rendered_first(elements, (count - 1) as nat) + elements@[count - 1].rendered()
        }
    }

    /// The texts of all elements, one behind the other.
    pub open spec fn rendered_all(elements: Vec<LatexElement>) -> Seq<char> {
        Self::rendered_first(elements, elements@.len())
    }

    /// The text of the first elements of a list depends on those elements
    /// alone.
    pub proof fn lemma_rendered_prefix(
        shorter: Vec<LatexElement>,
        longer: Vec<LatexElement>,
        count: nat,
    )
        requires
            count <= shorter@.len() <= longer@.len(),
            forall|i: int| 0 <= i < count ==> shorter@[i] == longer@[i],
        ensures
            Self::rendered_first(shorter, count) == Self::rendered_first(longer, count),
        decreases count,
    {
        if count > 0 {
            Self::lemma_rendered_prefix(shorter, longer, (count - 1) as nat);
        }
    }

    /// Adds an element to the end of a list. The text of the list grows by
    /// the text of the element.
    pub fn push_to(elements: &mut Vec<LatexElement>, element: LatexElement)
        ensures
            final(elements)@ == old(elements)@.push(element),
            Self::rendered_all(*final(elements)) == Self::rendered_all(*old(elements))
                + element.rendered(),
    {
        elements.push(element);
        proof {
            Self::lemma_rendered_prefix(*old(elements), *elements, old(elements)@.len());
        }
    }

    /// A directive with one argument and no option.
    pub fn heading(name: &str, title: String) -> (element: Self)
        ensures
            element.rendered() == heading_text(name@, title@),
    {
        let mut args: Vec<String> = Vec::new();
        args.push(title);
        let element = Self::directive(name, Vec::new(), args);
        proof {
            reveal_with_fuel(wrapped, 2);
            assert(element.rendered() =~= heading_text(name@, title@));
        }
        element
    }

    /// Appends to `writer` each item between the two given texts.
    fn write_wrapped(writer: &mut String, items: &Vec<String>, left: &str, right: &str)
        requires
            left@.len() == 1,
            right@.len() == 1,
        ensures
            final(writer)@ == old(writer)@ + wrapped(items@, left@[0], right@[0], items@.len()),
    {
        let mut i: usize = 0;
        while i < items.len()
            invariant
                i <= items.len(),
                left@.len() == 1,
                right@.len() == 1,
                writer@ == old(writer)@ + wrapped(items@, left@[0], right@[0], i as nat),
            decreases items.len() - i,
        {
            writer.append(left);
            writer.append(items[i].as_str());
            writer.append(right);
            proof {
                assert(left@ =~= seq![left@[0]]);
                assert(right@ =~= seq![right@[0]]);
                assert(writer@ =~= old(writer)@ + wrapped(
                    items@,
                    left@[0],
                    right@[0],
                    (i + 1) as nat,
                ));
            }
            i += 1;
        }
    }

    /// Appends the text of the element to `writer`.
    pub fn write(&self, writer: &mut String)
        ensures
            final(writer)@ == old(writer)@ + self.rendered(),
        decreases self,
    {
        proof {
            reveal_strlit("\\");
            reveal_strlit("[");
            reveal_strlit("]");
            reveal_strlit("{");
            reveal_strlit("}");
            reveal_strlit(" ");
        }
        match self {
            Self::Directive { name, opts, args } => {
                writer.append("\\");
                writer.append(name.as_str());
                Self::write_wrapped(writer, opts, "[", "]");
                Self::write_wrapped(writer, args, "{", "}");
                writer.append(" ");
                assert(writer@ =~= old(writer)@ + self.rendered());
            },
            Self::Environment { name, elements } => {
                writer.append("\\begin{");
                writer.append(name.as_str());
                writer.append("} ");
                let ghost opened = writer@;
                let mut i: usize = 0;
                while i < elements.len()
                    invariant
                        i <= elements.len(),
                        self matches LatexElement::Environment {
                            elements: own,
                            ..
                        } && own == *elements,
                        writer@ == opened + Self::rendered_first(*elements, i as nat),
                    decreases elements.len() - i,
                {
                    proof {
                        vstd::std_specs::vec::axiom_vec_index_decreases(*elements, i as int);
                    }
                    elements[i].write(writer);
                    assert(writer@ =~= opened + Self::rendered_first(*elements, (i + 1) as nat));
                    i += 1;
                }
                writer.append("\\end{");
                writer.append(name.as_str());
                writer.append("} ");
                assert(writer@ =~= old(writer)@ + self.rendered());
            },
            Self::Raw(value) => {
                writer.append(" ");
                writer.append(value.as_str());
                writer.append(" ");
                assert(writer@ =~= old(writer)@ + self.rendered());
            },
        }
    }

    /// A directive of the given name with the given options and arguments.
    #[inline]
    pub fn directive(name: &str, opts: Vec<String>, args: Vec<String>) -> (element: Self)
        ensures
            element matches LatexElement::Directive { name: n, opts: o, args: a } && n@ == name@
                && o == opts && a == args,
    {
        let name = String::from_str(name);
        LatexElement::Directive { name, opts, args }
    }

    /// Raw text.
    #[inline]
    pub fn raw(value: &str) -> (element: Self)
        ensures
            element matches LatexElement::Raw(text) && text@ == value@,
    {
        LatexElement::Raw(String::from_str(value))
    }

    /// An environment of the given name around the given elements.
    #[inline]
    pub fn environment(name: &str, contents: Vec<LatexElement>) -> (element: Self)
        ensures
            element matches LatexElement::Environment { name: n, elements } && n@ == name@
                && elements == contents,
    {
        Self::Environment { name: String::from_str(name), elements: contents }
    }
}

} // verus!
