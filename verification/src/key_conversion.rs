//! Character-level keyboard layout conversion: a small substitution table
//! applied to the characters the scan-code decoder produces, so that a
//! different physical layout can be typed on the decoder's fixed layout.

use vstd::prelude::*;

verus! {

/// A keyboard conversion layout: a human-readable name, a short layout
/// code, and the character substitutions it applies. Characters without an
/// entry pass through unchanged; each character has at most one entry.
pub struct KeyConversionLayout {
    pub name: &'static str,
    pub code: &'static str,
    pub mapping: Vec<(char, char)>,
}

/// The first substitution for `c` in the table, if any.
pub open spec fn spec_lookup(m: Seq<(char, char)>, c: char) -> Option<char>
    decreases m.len(),
{
    if m.len() == 0 {
        None
    } else if m[0].0 == c {
        Some(m[0].1)
    } else {
        spec_lookup(m.drop_first(), c)
    }
}

impl KeyConversionLayout {
    /// What converting one character yields: its substitution, or the
    /// character itself when the table has none.
    pub open spec fn spec_convert(self, c: char) -> char {
        match spec_lookup(self.mapping@, c) {
            Some(x) => x,
            None => c,
        }
    }

    /// Convert one character through the layout's substitution table.
    pub fn convert_char(&self, original: char) -> (r: char)
        ensures
            r == self.spec_convert(original),
    {
        let mut i: usize = 0;
        proof {
            assert(self.mapping@.skip(0) =~= self.mapping@);
        }
        while i < self.mapping.len()
            invariant
                i <= self.mapping@.len(),
                spec_lookup(self.mapping@, original) == spec_lookup(
                    self.mapping@.skip(i as int),
                    original,
                ),
            decreases self.mapping@.len() - i,
        {
            let pair = *self.mapping.get(i).unwrap();
            proof {
                assert(self.mapping@.skip(i as int)[0] == self.mapping@[i as int]);
                assert(self.mapping@.skip(i as int).drop_first() =~= self.mapping@.skip(
                    i as int + 1,
                ));
            }
            if pair.0 == original {
                return pair.1;
            }
            i = i + 1;
        }
        original
    }
}

/// The German layout conversion table, applied on top of the decoder's
/// fixed UK layout.
pub fn keymap_de() -> (k: KeyConversionLayout)
    ensures
        k.mapping@ == seq![
            ('~', '°'),
            ('`', '^'),
            ('@', '"'),
            ('#', '§'),
            ('^', '&'),
            ('&', '/'),
            ('*', '('),
            ('(', ')'),
            (')', '='),
            ('-', 'ß'),
            ('_', '?'),
        ],
{
    let mut mapping: Vec<(char, char)> = Vec::new();
    mapping.push(('~', '°'));
    mapping.push(('`', '^'));
    mapping.push(('@', '"'));
    mapping.push(('#', '§'));
    mapping.push(('^', '&'));
    mapping.push(('&', '/'));
    mapping.push(('*', '('));
    mapping.push(('(', ')'));
    mapping.push((')', '='));
    mapping.push(('-', 'ß'));
    mapping.push(('_', '?'));
    proof {
        assert(mapping@ =~= seq![
            ('~', '°'),
            ('`', '^'),
            ('@', '"'),
            ('#', '§'),
            ('^', '&'),
            ('&', '/'),
            ('*', '('),
            ('(', ')'),
            (')', '='),
            ('-', 'ß'),
            ('_', '?'),
        ]);
    }
    KeyConversionLayout { name: "German (Standard)", code: "de", mapping }
}

/// The identity layout: no substitutions.
pub fn keymap_us() -> (k: KeyConversionLayout)
    ensures
        k.mapping@ == Seq::<(char, char)>::empty(),
        forall|c: char| k.spec_convert(c) == c,
{
    let mapping: Vec<(char, char)> = Vec::new();
    proof {
        assert(mapping@ =~= Seq::<(char, char)>::empty());
    }
    KeyConversionLayout { name: "US", code: "us", mapping }
}

} // verus!
