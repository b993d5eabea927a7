//! The project tree: named elements with attributes, text and children.
//!
//! The serialized project is handed to the library as a plain tree of
//! elements.  Slash-separated paths address descendants: each segment names
//! the first child that carries it.

use vstd::prelude::*;
use crate::Error;
use crate::text::{split, split_seq, str_eq, strs_view};

verus! {

/// A node of the project tree.
#[derive(Debug)]
pub struct Element {
    /// The element's name.
    pub name: String,
    /// The element's attributes, in document order.
    pub attributes: Vec<(String, String)>,
    /// The element's text, if it has any.
    pub text: Option<String>,
    /// The element's child elements, in document order.
    pub children: Vec<Element>,
}

/// The view of an optional string.
pub open spec fn opt_view(o: Option<String>) -> Option<Seq<char>> {
    match o {
        Some(s) => Some(s@),
        None => None,
    }
}

/// The first element of the sequence with the given name, if any.
pub open spec fn first_child(cs: Seq<Element>, name: Seq<char>) -> Option<Element>
    decreases cs.len(),
{
    if cs.len() == 0 {
        None
    } else if cs[0].name@ == name {
        Some(cs[0])
    } else {
        first_child(cs.drop_first(), name)
    }
}

/// The element reached by descending through the given child names.
pub open spec fn descend(e: Element, segs: Seq<Seq<char>>) -> Option<Element>
    decreases segs.len(),
{
    if segs.len() == 0 {
        Some(e)
    } else {
        match first_child(e.children@, segs[0]) {
            Some(c) => descend(c, segs.drop_first()),
            None => None,
        }
    }
}

/// The element reached by a slash-separated path.
pub open spec fn node_at(e: Element, path: Seq<char>) -> Option<Element> {
    descend(e, split_seq(path, '/'))
}

/// The text of the element reached by a slash-separated path.
pub open spec fn text_at(e: Element, path: Seq<char>) -> Option<Seq<char>> {
    match node_at(e, path) {
        Some(c) => opt_view(c.text),
        None => None,
    }
}

/// The first value in the attribute list with the given key, if any.
pub open spec fn attr_value(attrs: Seq<(String, String)>, key: Seq<char>) -> Option<Seq<char>>
    decreases attrs.len(),
{
    if attrs.len() == 0 {
        None
    } else if attrs[0].0@ == key {
        Some(attrs[0].1@)
    } else {
        attr_value(attrs.drop_first(), key)
    }
}

/// The referenced name of an element: the last slash-separated segment of
/// its noderef attribute.
pub open spec fn noderef_of(e: Element) -> Option<Seq<char>> {
    match attr_value(e.attributes@, "noderef"@) {
        Some(v) => Some(split_seq(v, '/').last()),
        None => None,
    }
}

/// The referenced name of the element reached by a slash-separated path.
pub open spec fn noderef_at(e: Element, path: Seq<char>) -> Option<Seq<char>> {
    match node_at(e, path) {
        Some(c) => noderef_of(c),
        None => None,
    }
}

/// The children of the element reached by all but the last path segment,
/// provided every one of them carries the last segment as its name.
pub open spec fn children_at(e: Element, path: Seq<char>) -> Option<Seq<Element>> {
    let segs = split_seq(path, '/');
    match descend(e, segs.drop_last()) {
        Some(p) => if forall|i: int|
            0 <= i < p.children@.len() ==> (#[trigger] p.children@[i]).name@ == segs.last() {
            Some(p.children@)
        } else {
            None
        },
        None => None,
    }
}

impl Element {
    /// Returns the first child with the given name.
    fn get_child(&self, name: &str) -> (r: Option<&Element>)
        ensures
            match r {
                Some(c) => first_child(self.children@, name@) == Some(*c),
                None => first_child(self.children@, name@) is None,
            },
    {
        let n = self.children.len();
        let mut i: usize = 0;
        proof {
            assert(self.children@.skip(0) =~= self.children@);
        }
        while i < n
            invariant
                i <= n,
                n == self.children@.len(),
                first_child(self.children@, name@) == first_child(
                    self.children@.skip(i as int),
                    name@,
                ),
            decreases n - i,
        {
            proof {
                assert(self.children@.skip(i as int)[0] == self.children@[i as int]);
                assert(self.children@.skip(i as int).drop_first() =~= self.children@.skip(i + 1));
            }
            if str_eq(self.children[i].name.as_str(), name) {
                return Some(&self.children[i]);
            }
            i += 1;
        }
        None
    }

    /// Returns the descendant reached by a slash-separated path, or an error
    /// naming the element and the child that was missing.
    pub fn child(&self, path: &str) -> (r: Result<&Element, Error>)
        ensures
            r matches Ok(c) ==> node_at(*self, path@) == Some(*c),
            r is Ok <==> node_at(*self, path@) is Some,
            r matches Err(e) ==> e matches Error::MissingChild(p, c) && split_seq(
                path@,
                '/',
            ).contains(c@),
    {
        let segs = split(path, '/');
        let ghost views = strs_view(segs@);
        let mut cur: &Element = self;
        let mut i: usize = 0;
        proof {
            assert(views.skip(0) =~~= views);
        }
        while i < segs.len()
            invariant
                i <= segs@.len(),
                views == strs_view(segs@),
                views == split_seq(path@, '/'),
                descend(*self, views) == descend(*cur, views.skip(i as int)),
            decreases segs@.len() - i,
        {
            proof {
                assert(views.skip(i as int)[0] == views[i as int]);
                assert(views.skip(i as int).drop_first() =~= views.skip(i + 1));
            }
            match cur.get_child(segs[i].as_str()) {
                Some(c) => {
                    cur = c;
                },
                None => {
                    proof {
                        assert(views.contains(views[i as int]));
                    }
                    return Err(Error::MissingChild(cur.name.clone(), segs[i].clone()));
                },
            }
            i += 1;
        }
        proof {
            assert(views.skip(segs@.len() as int) =~~= Seq::<Seq<char>>::empty());
        }
        Ok(cur)
    }

    /// Returns the children of the descendant reached by all but the last
    /// path segment, provided every one of them carries the last segment as
    /// its name.
    pub fn children(&self, path: &str) -> (r: Result<&Vec<Element>, Error>)
        ensures
            r matches Ok(cs) ==> children_at(*self, path@) == Some(cs@),
            r is Ok <==> children_at(*self, path@) is Some,
            r matches Err(e) ==> e matches Error::MissingChild(p, c),
    {
        let segs = split(path, '/');
        let ghost views = strs_view(segs@);
        proof {
            crate::text::lemma_split_seq_len(path@, '/');
            assert(views.drop_last().skip(0) =~~= views.drop_last());
        }
        let m = segs.len() - 1;
        let ghost front = views.drop_last();
        let mut cur: &Element = self;
        let mut i: usize = 0;
        while i < m
            invariant
                i <= m,
                m + 1 == segs@.len(),
                views == strs_view(segs@),
                views == split_seq(path@, '/'),
                front == views.drop_last(),
                descend(*self, front) == descend(*cur, front.skip(i as int)),
            decreases m - i,
        {
            proof {
                assert(front.skip(i as int)[0] == front[i as int]);
                assert(front[i as int] == views[i as int]);
                assert(front.skip(i as int).drop_first() =~= front.skip(i + 1));
            }
            match cur.get_child(segs[i].as_str()) {
                Some(c) => {
                    cur = c;
                },
                None => {
                    return Err(Error::MissingChild(cur.name.clone(), segs[i].clone()));
                },
            }
            i += 1;
        }
        proof {
            assert(front.skip(m as int) =~~= Seq::<Seq<char>>::empty());
            assert(descend(*self, front) == Some(*cur));
            assert(views.last() == views[m as int]);
        }
        let last = &segs[m];
        let n = cur.children.len();
        let mut j: usize = 0;
        while j < n
            invariant
                j <= n,
                n == cur.children@.len(),
                last@ == views[m as int],
                m + 1 == segs@.len(),
                views.len() == m + 1,
                views == split_seq(path@, '/'),
                front == views.drop_last(),
                descend(*self, front) == Some(*cur),
                forall|k: int| 0 <= k < j ==> (#[trigger] cur.children@[k]).name@ == last@,
            decreases n - j,
        {
            if !str_eq(cur.children[j].name.as_str(), last.as_str()) {
                proof {
                    assert(views.last() == views[m as int]);
                    assert(cur.children@[j as int].name@ != views.last());
                }
                return Err(Error::MissingChild(cur.name.clone(), last.clone()));
            }
            j += 1;
        }
        Ok(&cur.children)
    }

    /// Returns this element's text, or an error naming the element.
    pub fn as_str(&self) -> (r: Result<&str, Error>)
        ensures
            r matches Ok(t) ==> opt_view(self.text) == Some(t@),
            r is Ok <==> opt_view(self.text) is Some,
            r matches Err(e) ==> e matches Error::NoElementText(n) && n@ == self.name@,
    {
        match &self.text {
            Some(t) => Ok(t.as_str()),
            None => Err(Error::NoElementText(self.name.clone())),
        }
    }

    /// Returns the name this element references: the last segment of its
    /// noderef attribute.
    pub fn noderef(&self) -> (r: Result<String, Error>)
        ensures
            r matches Ok(t) ==> noderef_of(*self) == Some(t@),
            r is Ok <==> noderef_of(*self) is Some,
            r matches Err(e) ==> e matches Error::MissingNoderef(n) && n@ == self.name@,
    {
        let n = self.attributes.len();
        let mut i: usize = 0;
        proof {
            assert(self.attributes@.skip(0) =~= self.attributes@);
        }
        while i < n
            invariant
                i <= n,
                n == self.attributes@.len(),
                attr_value(self.attributes@, "noderef"@) == attr_value(
                    self.attributes@.skip(i as int),
                    "noderef"@,
                ),
            decreases n - i,
        {
            proof {
                assert(self.attributes@.skip(i as int)[0] == self.attributes@[i as int]);
                assert(self.attributes@.skip(i as int).drop_first() =~= self.attributes@.skip(
                    i + 1,
                ));
            }
            if str_eq(self.attributes[i].0.as_str(), "noderef") {
                let parts = split(self.attributes[i].1.as_str(), '/');
                proof {
                    crate::text::lemma_split_seq_len(self.attributes@[i as int].1@, '/');
                    assert(strs_view(parts@).last() == parts@[parts@.len() - 1]@);
                }
                let last = parts[parts.len() - 1].clone();
                return Ok(last);
            }
            i += 1;
        }
        Err(Error::MissingNoderef(self.name.clone()))
    }
}

} // verus!
