use vstd::prelude::*;
use crate::text::str_equals;

verus! {

/// An entity's hit points.
#[derive(Clone, Copy, PartialEq, Eq, Structural, Debug)]
pub struct Hitpoints {
    pub current: i32,
    pub max: i32,
}

/// The allegiance a splash image gets when it is added.
pub open spec fn neutral() -> Seq<char> {
    "neutral"@
}

/// The allegiance a splash switches to: `neutral` and `evil` swap; any other stays as it is.
pub open spec fn toggled(allegiance: Seq<char>) -> Seq<char> {
    if allegiance == "neutral"@ {
        "evil"@
    } else if allegiance == "evil"@ {
        "neutral"@
    } else {
        allegiance
    }
}

/// Swaps the allegiances `neutral` and `evil`; any other allegiance is kept.
pub fn toggle_allegiance(allegiance: &str) -> (r: String)
    ensures
        r@ == toggled(allegiance@),
{
    if str_equals(allegiance, "neutral") {
        String::from_str("evil")
    } else if str_equals(allegiance, "evil") {
        String::from_str("neutral")
    } else {
        String::from_str(allegiance)
    }
}

/// The characters of each string.
pub open spec fn texts(s: Seq<String>) -> Seq<Seq<char>> {
    s.map_values(|x: String| x@)
}

/// The characters of both strings of each pair.
pub open spec fn text_pairs(s: Seq<(String, String)>) -> Seq<(Seq<char>, Seq<char>)> {
    s.map_values(|x: (String, String)| (x.0@, x.1@))
}

/// Whether `s` holds `x`.
pub open spec fn holds<T>(s: Seq<T>, x: T) -> bool {
    exists|i: int| 0 <= i < s.len() && s[i] == x
}

/// No two entries of `s` are equal.
pub open spec fn distinct<T>(s: Seq<T>) -> bool {
    forall|i: int, j: int| 0 <= i < j < s.len() ==> s[i] != s[j]
}

/// Whether some string of `v` has the characters of `x`.
fn contains_text(v: &Vec<String>, x: &str) -> (r: bool)
    ensures
        r == holds(texts(v@), x@),
{
    let mut i: usize = 0;
    while i < v.len()
        invariant
            i <= v@.len(),
            forall|k: int| 0 <= k < i ==> v@[k]@ != x@,
        decreases v@.len() - i,
    {
        if str_equals(v[i].as_str(), x) {
            assert(texts(v@)[i as int] == x@);
            return true;
        }
        i = i + 1;
    }
    assert forall|k: int| 0 <= k < texts(v@).len() implies texts(v@)[k] != x@ by {
        assert(texts(v@)[k] == v@[k]@);
    }
    false
}

/// Whether some pair of `v` has the characters of `(a, b)`.
fn contains_pair(v: &Vec<(String, String)>, a: &str, b: &str) -> (r: bool)
    ensures
        r == holds(text_pairs(v@), (a@, b@)),
{
    let mut i: usize = 0;
    while i < v.len()
        invariant
            i <= v@.len(),
            forall|k: int| 0 <= k < i ==> (v@[k].0@, v@[k].1@) != (a@, b@),
        decreases v@.len() - i,
    {
        if str_equals(v[i].0.as_str(), a) && str_equals(v[i].1.as_str(), b) {
            assert(text_pairs(v@)[i as int] == (a@, b@));
            return true;
        }
        i = i + 1;
    }
    assert forall|k: int| 0 <= k < text_pairs(v@).len() implies text_pairs(v@)[k] != (a@, b@) by {
        assert(text_pairs(v@)[k] == (v@[k].0@, v@[k].1@));
    }
    false
}

/// Appends `x` to `out` unless `out` holds it already.
fn push_new_text(out: &mut Vec<String>, x: &String)
    requires
        distinct(texts(old(out)@)),
    ensures
        distinct(texts(final(out)@)),
        forall|y: Seq<char>| holds(texts(final(out)@), y) <==> (holds(texts(old(out)@), y) || y == x@),
{
    if !contains_text(out, x.as_str()) {
        let ghost before = texts(out@);
        out.push(x.clone());
        proof {
            assert(texts(out@) =~= before.push(x@));
            assert forall|y: Seq<char>| holds(texts(out@), y) <==> (holds(before, y) || y == x@) by {
                if holds(before, y) {
                    let i = choose|i: int| 0 <= i < before.len() && before[i] == y;
                    assert(texts(out@)[i] == y);
                }
                if y == x@ {
                    assert(texts(out@)[before.len() as int] == y);
                }
            }
        }
    }
}

/// The strings of `existing` and of `added`, each once: the first time it occurs, those of
/// `existing` first.
pub fn merge_unique(existing: &Vec<String>, added: &Vec<String>) -> (r: Vec<String>)
    ensures
        distinct(texts(r@)),
        forall|y: Seq<char>| holds(texts(r@), y) <==> (holds(texts(existing@), y) || holds(texts(added@), y)),
{
    let mut out: Vec<String> = Vec::new();
    let mut i: usize = 0;
    while i < existing.len()
        invariant
            i <= existing@.len(),
            distinct(texts(out@)),
            forall|y: Seq<char>| holds(texts(out@), y) <==> holds(texts(existing@.subrange(0, i as int)), y),
        decreases existing@.len() - i,
    {
        push_new_text(&mut out, &existing[i]);
        proof {
            assert(texts(existing@.subrange(0, i + 1)) =~= texts(existing@.subrange(0, i as int)).push(existing@[i as int]@));
            lemma_holds_push(texts(existing@.subrange(0, i as int)), existing@[i as int]@);
        }
        i = i + 1;
    }
    assert(existing@.subrange(0, i as int) =~= existing@);
    let mut j: usize = 0;
    while j < added.len()
        invariant
            j <= added@.len(),
            distinct(texts(out@)),
            forall|y: Seq<char>| holds(texts(out@), y) <==> (holds(texts(existing@), y) || holds(texts(added@.subrange(0, j as int)), y)),
        decreases added@.len() - j,
    {
        push_new_text(&mut out, &added[j]);
        proof {
            assert(texts(added@.subrange(0, j + 1)) =~= texts(added@.subrange(0, j as int)).push(added@[j as int]@));
            lemma_holds_push(texts(added@.subrange(0, j as int)), added@[j as int]@);
        }
        j = j + 1;
    }
    assert(added@.subrange(0, j as int) =~= added@);
    out
}

/// Appends `(a, b)` to `out` unless `out` holds that pair already.
fn push_new_pair(out: &mut Vec<(String, String)>, a: &String, b: &String)
    requires
        distinct(text_pairs(old(out)@)),
    ensures
        distinct(text_pairs(final(out)@)),
        forall|p: (Seq<char>, Seq<char>)|
            holds(text_pairs(final(out)@), p) <==> (holds(text_pairs(old(out)@), p) || p == (a@, b@)),
{
    if !contains_pair(out, a.as_str(), b.as_str()) {
        let ghost before = text_pairs(out@);
        out.push((a.clone(), b.clone()));
        proof {
            assert(text_pairs(out@) =~= before.push((a@, b@)));
            lemma_holds_push(before, (a@, b@));
        }
    }
}

/// The splash entries of `existing` and one `(image, "neutral")` for each of `images`, each
/// entry once: the first time it occurs, those of `existing` first.
pub fn merge_splashes(existing: &Vec<(String, String)>, images: &Vec<String>) -> (r: Vec<(String, String)>)
    ensures
        distinct(text_pairs(r@)),
        forall|p: (Seq<char>, Seq<char>)|
            holds(text_pairs(r@), p) <==> (holds(text_pairs(existing@), p) || (p.1 == neutral()
                && holds(texts(images@), p.0))),
{
    let mut out: Vec<(String, String)> = Vec::new();
    let mut i: usize = 0;
    while i < existing.len()
        invariant
            i <= existing@.len(),
            distinct(text_pairs(out@)),
            forall|p: (Seq<char>, Seq<char>)|
                holds(text_pairs(out@), p) <==> holds(text_pairs(existing@.subrange(0, i as int)), p),
        decreases existing@.len() - i,
    {
        let ghost before = out@;
        let entry = &existing[i];
        push_new_pair(&mut out, &entry.0, &entry.1);
        proof {
            let key = (existing@[i as int].0@, existing@[i as int].1@);
            assert(key == (entry.0@, entry.1@));
            assert(text_pairs(existing@.subrange(0, i + 1)) =~= text_pairs(
                existing@.subrange(0, i as int),
            ).push(key));
            lemma_holds_push(text_pairs(existing@.subrange(0, i as int)), key);
            assert forall|p: (Seq<char>, Seq<char>)|
                holds(text_pairs(out@), p) <==> holds(text_pairs(existing@.subrange(0, i + 1)), p) by {
                assert(holds(text_pairs(out@), p) <==> (holds(text_pairs(before), p) || p == key));
            }
        }
        i = i + 1;
    }
    assert(existing@.subrange(0, i as int) =~= existing@);
    let allegiance = String::from_str("neutral");
    proof {
        reveal_strlit("neutral");
    }
    let mut j: usize = 0;
    while j < images.len()
        invariant
            j <= images@.len(),
            allegiance@ == neutral(),
            distinct(text_pairs(out@)),
            forall|p: (Seq<char>, Seq<char>)|
                holds(text_pairs(out@), p) <==> (holds(text_pairs(existing@), p) || (p.1 == neutral()
                    && holds(texts(images@.subrange(0, j as int)), p.0))),
        decreases images@.len() - j,
    {
        push_new_pair(&mut out, &images[j], &allegiance);
        proof {
            assert(texts(images@.subrange(0, j + 1)) =~= texts(images@.subrange(0, j as int)).push(
                images@[j as int]@,
            ));
            lemma_holds_push(texts(images@.subrange(0, j as int)), images@[j as int]@);
        }
        j = j + 1;
    }
    assert(images@.subrange(0, j as int) =~= images@);
    out
}

proof fn lemma_holds_push<T>(s: Seq<T>, x: T)
    ensures
        forall|y: T| holds(s.push(x), y) <==> (holds(s, y) || y == x),
{
    assert forall|y: T| holds(s.push(x), y) <==> (holds(s, y) || y == x) by {
        if holds(s, y) {
            let i = choose|i: int| 0 <= i < s.len() && s[i] == y;
            assert(s.push(x)[i] == y);
        }
        if y == x {
            assert(s.push(x)[s.len() as int] == y);
        }
        if holds(s.push(x), y) {
            let i = choose|i: int| 0 <= i < s.push(x).len() && s.push(x)[i] == y;
            if i < s.len() {
                assert(s[i] == y);
            }
        }
    }
}

} // verus!
