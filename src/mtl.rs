//! The Wavefront .mtl reader, fed one line at a time. Colors and
//! transparency are checked to be finite decimal literals and kept as text;
//! texture maps are kept as the file names the material gives.
use vstd::prelude::*;
use crate::lex::{split_words, words};
use crate::obj::{
    ErrorKind, Field, LoadError, check_number, check_triple, field_check, triple_check, word_is,
    words_between, text_of,
};

verus! {

/// A material as its .mtl record gives it. A field that the record does not
/// set is None and takes the default value.
#[derive(Clone, Debug)]
pub struct MaterialSource {
    /// Ambient, diffuse and specular colors: three number literals each.
    pub ka: Option<Vec<String>>,
    pub kd: Option<Vec<String>>,
    pub ks: Option<Vec<String>>,
    pub transparency: Option<String>,
    /// Texture maps: file names relative to the .mtl file.
    pub map_ka: Option<String>,
    pub map_kd: Option<String>,
    pub map_ks: Option<String>,
}

/// The text of a material.
pub struct MaterialModel {
    pub ka: Option<Seq<Seq<char>>>,
    pub kd: Option<Seq<Seq<char>>>,
    pub ks: Option<Seq<Seq<char>>>,
    pub transparency: Option<Seq<char>>,
    pub map_ka: Option<Seq<char>>,
    pub map_kd: Option<Seq<char>>,
    pub map_ks: Option<Seq<char>>,
}

pub open spec fn opt_texts(o: Option<Vec<String>>) -> Option<Seq<Seq<char>>> {
    match o {
        Some(v) => Some(text_of(v)),
        None => None,
    }
}

pub open spec fn opt_text(o: Option<String>) -> Option<Seq<char>> {
    match o {
        Some(s) => Some(s@),
        None => None,
    }
}

impl MaterialSource {
    pub open spec fn model(&self) -> MaterialModel {
        MaterialModel {
            ka: opt_texts(self.ka),
            kd: opt_texts(self.kd),
            ks: opt_texts(self.ks),
            transparency: opt_text(self.transparency),
            map_ka: opt_text(self.map_ka),
            map_kd: opt_text(self.map_kd),
            map_ks: opt_text(self.map_ks),
        }
    }

    /// The material that sets nothing: every field at its default.
    pub fn unset() -> (r: MaterialSource)
        ensures
            r.model() == unset_model(),
    {
        MaterialSource {
            ka: None,
            kd: None,
            ks: None,
            transparency: None,
            map_ka: None,
            map_kd: None,
            map_ks: None,
        }
    }
}

pub open spec fn unset_model() -> MaterialModel {
    MaterialModel {
        ka: None,
        kd: None,
        ks: None,
        transparency: None,
        map_ka: None,
        map_kd: None,
        map_ks: None,
    }
}

/// The reader's state: the materials committed so far, and the one being
/// read (with an empty name before the first `newmtl`).
pub struct MtlModel {
    pub names: Seq<Seq<char>>,
    pub materials: Seq<MaterialModel>,
    pub current_name: Seq<char>,
    pub current: MaterialModel,
}

/// A record `<kind> r g b` that sets a color.
pub open spec fn color_step(m: MtlModel, ws: Seq<Seq<char>>, which: int) -> Result<MtlModel, ErrorKind> {
    match triple_check(ws, Field::Red, Field::Green, Field::Blue) {
        Some(e) => Err(e),
        None => {
            let c = Some(ws.subrange(1, 4));
            let cur = if which == 0 {
                MaterialModel { ka: c, ..m.current }
            } else if which == 1 {
                MaterialModel { kd: c, ..m.current }
            } else {
                MaterialModel { ks: c, ..m.current }
            };
            Ok(MtlModel { current: cur, ..m })
        },
    }
}

/// A record `<kind> file` that sets a texture map.
pub open spec fn map_step(m: MtlModel, ws: Seq<Seq<char>>, which: int) -> Result<MtlModel, ErrorKind> {
    if ws.len() < 2 {
        Err(ErrorKind::Missing(Field::ImageFile))
    } else {
        let f = Some(ws[1]);
        let cur = if which == 0 {
            MaterialModel { map_ka: f, ..m.current }
        } else if which == 1 {
            MaterialModel { map_kd: f, ..m.current }
        } else {
            MaterialModel { map_ks: f, ..m.current }
        };
        Ok(MtlModel { current: cur, ..m })
    }
}

/// What one line of a .mtl file, given as its words, does to the reader.
/// `newmtl` commits the material being read, if it has a name, and starts a
/// fresh one with every field at its default (records before the first
/// `newmtl` belong to no material); `Tf`, `Ni` and unknown records are ignored.
pub open spec fn mtl_step(m: MtlModel, ws: Seq<Seq<char>>) -> Result<MtlModel, ErrorKind> {
    if ws.len() == 0 {
        Ok(m)
    } else if ws[0] == seq!['n', 'e', 'w', 'm', 't', 'l'] {
        if ws.len() < 2 {
            Err(ErrorKind::Missing(Field::MaterialName))
        } else if m.current_name.len() > 0 {
            Ok(
                MtlModel {
                    names: m.names.push(m.current_name),
                    materials: m.materials.push(m.current),
                    current_name: ws[1],
                    current: unset_model(),
                },
            )
        } else {
            Ok(MtlModel { current_name: ws[1], current: unset_model(), ..m })
        }
    } else if ws[0] == seq!['K', 'a'] {
        color_step(m, ws, 0)
    } else if ws[0] == seq!['K', 'd'] {
        color_step(m, ws, 1)
    } else if ws[0] == seq!['K', 's'] {
        color_step(m, ws, 2)
    } else if ws[0] == seq!['d'] || ws[0] == seq!['T', 'r'] {
        match field_check(ws, 1, Field::Transparency) {
            Some(e) => Err(e),
            None => Ok(MtlModel { current: MaterialModel { transparency: Some(ws[1]), ..m.current }, ..m }),
        }
    } else if ws[0] == seq!['m', 'a', 'p', '_', 'K', 'a'] {
        map_step(m, ws, 0)
    } else if ws[0] == seq!['m', 'a', 'p', '_', 'K', 'd'] {
        map_step(m, ws, 1)
    } else if ws[0] == seq!['m', 'a', 'p', '_', 'K', 's'] {
        map_step(m, ws, 2)
    } else {
        Ok(m)
    }
}

pub open spec fn models_of(v: Seq<MaterialSource>) -> Seq<MaterialModel> {
    v.map_values(|m: MaterialSource| m.model())
}

/// The .mtl reader.
pub struct MtlReader {
    pub names: Vec<String>,
    pub materials: Vec<MaterialSource>,
    pub current_name: String,
    pub current: MaterialSource,
}

impl MtlReader {
    pub open spec fn model(&self) -> MtlModel {
        MtlModel {
            names: text_of(self.names),
            materials: models_of(self.materials@),
            current_name: self.current_name@,
            current: self.current.model(),
        }
    }

    pub fn new() -> (r: MtlReader)
        ensures
            r.model().names.len() == 0,
            r.model().materials.len() == 0,
            r.model().current_name.len() == 0,
            r.model().current == unset_model(),
            r.names@.len() == r.materials@.len(),
    {
        MtlReader { names: Vec::new(), materials: Vec::new(), current_name: String::new(), current: MaterialSource::unset() }
    }

    /// Reads one line of a .mtl file; `lineno` is its 1-based number. On an
    /// error the reader is left as it was.
    pub fn feed_line(&mut self, line: &str, lineno: usize) -> (r: Result<(), LoadError>)
        requires
            old(self).names@.len() == old(self).materials@.len(),
        ensures
            final(self).names@.len() == final(self).materials@.len(),
            match mtl_step(old(self).model(), words(line@)) {
                Ok(m) => r is Ok && final(self).model() == m,
                Err(k) => {
                    &&& r == Err::<(), LoadError>(LoadError { line: lineno, kind: k })
                    &&& final(self).model() == old(self).model()
                },
            },
    {
        let ws = split_words(line);
        let ghost wv = words(line@);
        proof {
            assert(text_of(ws) =~= wv);
            reveal_strlit("newmtl");
            reveal_strlit("Ka");
            reveal_strlit("Kd");
            reveal_strlit("Ks");
            reveal_strlit("d");
            reveal_strlit("Tr");
            reveal_strlit("map_Ka");
            reveal_strlit("map_Kd");
            reveal_strlit("map_Ks");
            assert("newmtl"@ =~= seq!['n', 'e', 'w', 'm', 't', 'l']);
            assert("Ka"@ =~= seq!['K', 'a']);
            assert("Kd"@ =~= seq!['K', 'd']);
            assert("Ks"@ =~= seq!['K', 's']);
            assert("d"@ =~= seq!['d']);
            assert("Tr"@ =~= seq!['T', 'r']);
            assert("map_Ka"@ =~= seq!['m', 'a', 'p', '_', 'K', 'a']);
            assert("map_Kd"@ =~= seq!['m', 'a', 'p', '_', 'K', 'd']);
            assert("map_Ks"@ =~= seq!['m', 'a', 'p', '_', 'K', 's']);
        }
        if ws.len() == 0 {
            return Ok(());
        }
        let kind = ws[0].as_str();
        assert(kind@ == wv[0]);
        if word_is(kind, "newmtl") {
            if ws.len() < 2 {
                return Err(LoadError { line: lineno, kind: ErrorKind::Missing(Field::MaterialName) });
            }
            let name = ws[1].clone();
            if self.current_name.unicode_len() > 0 {
                let mut done = MaterialSource::unset();
                std::mem::swap(&mut self.current, &mut done);
                let mut done_name = name;
                std::mem::swap(&mut self.current_name, &mut done_name);
                self.names.push(done_name);
                self.materials.push(done);
                proof {
                    assert(self.model().names =~= old(self).model().names.push(old(self).model().current_name));
                    assert(self.model().materials =~= old(self).model().materials.push(old(self).model().current));
                }
            } else {
                self.current_name = name;
                self.current = MaterialSource::unset();
            }
            Ok(())
        } else if word_is(kind, "Ka") || word_is(kind, "Kd") || word_is(kind, "Ks") {
            match check_triple(&ws, Field::Red, Field::Green, Field::Blue) {
                Some(e) => Err(LoadError { line: lineno, kind: e }),
                None => {
                    let c = words_between(&ws, 1, 4);
                    if word_is(kind, "Ka") {
                        self.current.ka = Some(c);
                    } else if word_is(kind, "Kd") {
                        self.current.kd = Some(c);
                    } else {
                        self.current.ks = Some(c);
                    }
                    Ok(())
                },
            }
        } else if word_is(kind, "d") || word_is(kind, "Tr") {
            match check_number(&ws, 1, Field::Transparency) {
                Some(e) => Err(LoadError { line: lineno, kind: e }),
                None => {
                    self.current.transparency = Some(ws[1].clone());
                    Ok(())
                },
            }
        } else if word_is(kind, "map_Ka") || word_is(kind, "map_Kd") || word_is(kind, "map_Ks") {
            if ws.len() < 2 {
                return Err(LoadError { line: lineno, kind: ErrorKind::Missing(Field::ImageFile) });
            }
            let f = ws[1].clone();
            if word_is(kind, "map_Ka") {
                self.current.map_ka = Some(f);
            } else if word_is(kind, "map_Kd") {
                self.current.map_kd = Some(f);
            } else {
                self.current.map_ks = Some(f);
            }
            Ok(())
        } else {
            Ok(())
        }
    }

    /// Ends the file: the material being read is committed if it has a name.
    /// Returns the names and materials in the order the file defines them.
    pub fn finish(self) -> (r: (Vec<String>, Vec<MaterialSource>))
        requires
            self.names@.len() == self.materials@.len(),
        ensures
            r.0@.len() == r.1@.len(),
            self.model().current_name.len() > 0 ==> {
                &&& text_of(r.0) == self.model().names.push(self.model().current_name)
                &&& models_of(r.1@) == self.model().materials.push(self.model().current)
            },
            self.model().current_name.len() == 0 ==> {
                &&& text_of(r.0) == self.model().names
                &&& models_of(r.1@) == self.model().materials
            },
    {
        let ghost m = self.model();
        let mut names = self.names;
        let mut materials = self.materials;
        if self.current_name.unicode_len() > 0 {
            names.push(self.current_name);
            materials.push(self.current);
            proof {
                assert(text_of(names) =~= m.names.push(m.current_name));
                assert(models_of(materials@) =~= m.materials.push(m.current));
            }
        }
        (names, materials)
    }
}

} // verus!

