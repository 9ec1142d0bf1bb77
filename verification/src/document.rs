//! Settings files: what a TOML text holds, as far as themes go into it.

use vstd::prelude::*;

use crate::text::same_text;

verus! {

/// One entry of a document: its key, its value if that is a text, and its
/// entries if it is a table. The entries of a table have a value only where
/// that is a text.
#[derive(Debug)]
pub struct Entry {
    pub key: String,
    pub text: Option<String>,
    pub table: Option<Vec<(String, Option<String>)>>,
}

/// A text that may be there.
pub open spec fn text_view(t: Option<String>) -> Option<Seq<char>> {
    match t {
        Some(s) => Some(s@),
        None => None,
    }
}

/// The entries of a table, with texts in place of strings.
pub open spec fn table_view(t: Seq<(String, Option<String>)>) -> Seq<
    (Seq<char>, Option<Seq<char>>),
> {
    t.map_values(|e: (String, Option<String>)| (e.0@, text_view(e.1)))
}

/// The entries of a document, with texts and lists in place of strings and
/// vectors.
pub open spec fn entries_view(s: Seq<Entry>) -> Seq<
    (Seq<char>, Option<Seq<char>>, Option<Seq<(Seq<char>, Option<Seq<char>>)>>),
> {
    s.map_values(
        |e: Entry|
            (
                e.key@,
                text_view(e.text),
                match e.table {
                    Some(t) => Some(table_view(t@)),
                    None => None,
                },
            ),
    )
}

/// What a TOML text holds; `None` for a text that is not TOML.
pub uninterp spec fn toml_entries(text: Seq<char>) -> Option<
    Seq<(Seq<char>, Option<Seq<char>>, Option<Seq<(Seq<char>, Option<Seq<char>>)>>)>,
>;

/// `toml::from_str`: reads a TOML document, whose entries depend on the text
/// alone. Of each entry it is told whether it is a text or a table, and the
/// same of the entries of its tables; what a given text holds is left unsaid.
#[verifier::external_body]
pub(crate) fn read_toml(text: &str) -> (r: Option<Vec<Entry>>)
    ensures
        toml_entries(text@) == match r {
            Some(v) => Some(entries_view(v@)),
            None => None,
        },
{
    let doc: toml::Table = toml::from_str(text).ok()?;
    let inner = |v: toml::Value| match v {
        toml::Value::String(s) => Some(s),
        _ => None,
    };
    let outer = |key: String, v: toml::Value| match v {
        toml::Value::String(s) => Entry { key, text: Some(s), table: None },
        toml::Value::Table(t) => {
            let table = t.into_iter().map(|(k, v)| (k, inner(v))).collect();
            Entry { key, text: None, table: Some(table) }
        }
        _ => Entry { key, text: None, table: None },
    };
    Some(doc.into_iter().map(|(k, v)| outer(k, v)).collect())
}

/// A document.
#[derive(Debug)]
pub struct Document {
    pub entries: Vec<Entry>,
}

impl View for Document {
    type V = Seq<(Seq<char>, Option<Seq<char>>, Option<Seq<(Seq<char>, Option<Seq<char>>)>>)>;

    open spec fn view(&self) -> Self::V {
        entries_view(self.entries@)
    }
}

/// The value of a key of a document, where it is a text.
pub open spec fn text_at(
    d: Seq<(Seq<char>, Option<Seq<char>>, Option<Seq<(Seq<char>, Option<Seq<char>>)>>)>,
    key: Seq<char>,
) -> Option<Seq<char>>
    decreases d.len(),
{
    if d.len() == 0 {
        None
    } else if d[0].0 == key {
        d[0].1
    } else {
        text_at(d.skip(1), key)
    }
}

/// The value of a key of a document, where it is a table.
pub open spec fn table_at(
    d: Seq<(Seq<char>, Option<Seq<char>>, Option<Seq<(Seq<char>, Option<Seq<char>>)>>)>,
    key: Seq<char>,
) -> Option<Seq<(Seq<char>, Option<Seq<char>>)>>
    decreases d.len(),
{
    if d.len() == 0 {
        None
    } else if d[0].0 == key {
        d[0].2
    } else {
        table_at(d.skip(1), key)
    }
}

/// The value of a key of a table, where it is a text.
pub open spec fn field_at(t: Seq<(Seq<char>, Option<Seq<char>>)>, key: Seq<char>) -> Option<
    Seq<char>,
>
    decreases t.len(),
{
    if t.len() == 0 {
        None
    } else if t[0].0 == key {
        t[0].1
    } else {
        field_at(t.skip(1), key)
    }
}

fn copy_text(t: &Option<String>) -> (r: Option<String>)
    ensures
        text_view(r) == text_view(*t),
{
    match t {
        Some(s) => Some(s.clone()),
        None => None,
    }
}

/// The value of a key of a table, where it is a text.
pub fn field(t: &Vec<(String, Option<String>)>, key: &str) -> (r: Option<String>)
    ensures
        text_view(r) == field_at(table_view(t@), key@),
{
    let ghost v = table_view(t@);
    let mut i: usize = 0;
    assert(v.skip(0) =~= v);
    while i < t.len()
        invariant
            i <= t@.len(),
            v == table_view(t@),
            field_at(v, key@) == field_at(v.skip(i as int), key@),
        decreases t@.len() - i,
    {
        assert(v.skip(i as int)[0] == (t@[i as int].0@, text_view(t@[i as int].1)));
        assert(v.skip(i as int).skip(1) =~= v.skip(i + 1));
        if same_text(t[i].0.as_str(), key) {
            return copy_text(&t[i].1);
        }
        i += 1;
    }
    assert(v.skip(i as int) =~= Seq::empty());
    None
}

impl Document {
    /// Reads a document.
    pub fn parse(text: &str) -> (r: Option<Document>)
        ensures
            toml_entries(text@) == match r {
                Some(d) => Some(d@),
                None => None,
            },
    {
        match read_toml(text) {
            Some(entries) => Some(Document { entries }),
            None => None,
        }
    }

    /// The first entry with a key.
    fn find(&self, key: &str) -> (r: Option<&Entry>)
        ensures
            match r {
                Some(e) => text_view(e.text) == text_at(self@, key@) && (match e.table {
                    Some(t) => Some(table_view(t@)),
                    None => None,
                }) == table_at(self@, key@),
                None => text_at(self@, key@) is None && table_at(self@, key@) is None,
            },
    {
        let ghost v = self@;
        let mut i: usize = 0;
        assert(v.skip(0) =~= v);
        while i < self.entries.len()
            invariant
                i <= self.entries@.len(),
                v == self@,
                text_at(v, key@) == text_at(v.skip(i as int), key@),
                table_at(v, key@) == table_at(v.skip(i as int), key@),
            decreases self.entries@.len() - i,
        {
            assert(v.skip(i as int)[0] == v[i as int]);
            assert(v.skip(i as int).skip(1) =~= v.skip(i + 1));
            if same_text(self.entries[i].key.as_str(), key) {
                return Some(&self.entries[i]);
            }
            i += 1;
        }
        assert(v.skip(i as int) =~= Seq::empty());
        None
    }

    /// The value of a key, where it is a text.
    pub fn text(&self, key: &str) -> (r: Option<String>)
        ensures
            text_view(r) == text_at(self@, key@),
    {
        match self.find(key) {
            Some(e) => copy_text(&e.text),
            None => None,
        }
    }

    /// The value of a key, where it is a table.
    pub fn table(&self, key: &str) -> (r: Option<&Vec<(String, Option<String>)>>)
        ensures
            table_at(self@, key@) == match r {
                Some(t) => Some(table_view(t@)),
                None => None,
            },
    {
        match self.find(key) {
            Some(e) => match &e.table {
                Some(t) => Some(t),
                None => None,
            },
            None => None,
        }
    }

    /// This document over another: where both have a key, this one's value
    /// counts.
    pub fn over(self, under: Document) -> (r: Document)
        ensures
            r@ == self@ + under@,
    {
        let mut entries = self.entries;
        let ghost start = entries@;
        let ghost rest = under.entries@;
        let mut left: Vec<Entry> = Vec::new();
        let mut src = under.entries;
        while src.len() > 0
            invariant
                src@.len() + left@.len() == rest.len(),
                src@ == rest.take(src@.len() as int),
                forall|k: int|
                    0 <= k < left@.len() ==> #[trigger] left@[k] == rest[rest.len() - 1 - k],
            decreases src@.len(),
        {
            match src.pop() {
                Some(e) => {
                    left.push(e);
                },
                None => {},
            }
        }
        let ghost mut i: int = 0;
        assert(start + rest.take(0) =~= start);
        while left.len() > 0
            invariant
                0 <= i <= rest.len(),
                i + left@.len() == rest.len(),
                forall|k: int|
                    0 <= k < left@.len() ==> #[trigger] left@[k] == rest[rest.len() - 1 - k],
                entries@ == start + rest.take(i),
            decreases left@.len(),
        {
            match left.pop() {
                Some(e) => {
                    assert(e == rest[i]);
                    entries.push(e);
                    proof {
                        assert(start + rest.take(i + 1) =~= (start + rest.take(i)).push(rest[i]));
                        i = i + 1;
                    }
                },
                None => {},
            }
        }
        let r = Document { entries };
        proof {
            assert(rest.take(i) =~= rest);
            assert(r@ =~= entries_view(start) + entries_view(rest));
        }
        r
    }
}

/// Where a document that lies over another has a key, its value counts, and
/// where it has not, the other's.
pub proof fn law_over(
    a: Seq<(Seq<char>, Option<Seq<char>>, Option<Seq<(Seq<char>, Option<Seq<char>>)>>)>,
    b: Seq<(Seq<char>, Option<Seq<char>>, Option<Seq<(Seq<char>, Option<Seq<char>>)>>)>,
    key: Seq<char>,
)
    ensures
        (exists|i: int| 0 <= i < a.len() && (#[trigger] a[i]).0 == key) ==> text_at(a + b, key)
            == text_at(a, key) && table_at(a + b, key) == table_at(a, key),
        !(exists|i: int| 0 <= i < a.len() && (#[trigger] a[i]).0 == key) ==> text_at(a + b, key)
            == text_at(b, key) && table_at(a + b, key) == table_at(b, key),
    decreases a.len(),
{
    if a.len() == 0 {
        assert(a + b =~= b);
    } else {
        assert((a + b)[0] == a[0]);
        assert((a + b).skip(1) =~= a.skip(1) + b);
        law_over(a.skip(1), b, key);
        if a[0].0 != key {
            if exists|i: int| 0 <= i < a.len() && (#[trigger] a[i]).0 == key {
                let i = choose|i: int| 0 <= i < a.len() && (#[trigger] a[i]).0 == key;
                assert(a.skip(1)[i - 1] == a[i]);
            }
            if exists|i: int| 0 <= i < a.skip(1).len() && (#[trigger] a.skip(1)[i]).0 == key {
                let i = choose|i: int|
                    0 <= i < a.skip(1).len() && (#[trigger] a.skip(1)[i]).0 == key;
                assert(a[i + 1].0 == key);
            }
        }
    }
}

} // verus!
