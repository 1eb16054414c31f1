//! Loading mesh data from Wavefront OBJ text: a leaner line classifier and
//! face parser than the general one, producing a flat vertex list and a
//! 0-based index list ready for mesh construction. Reading the file itself
//! is the caller's concern; this module starts from the text.

use vstd::prelude::*;

use core::str::FromStr;

use crate::vertex::Vertex;
use crate::wavefront::{
    find_char_from, parse_u32, parse_word, spec_find_char, spec_parse_u32, spec_rstrip_cr,
    spec_split_char, spec_words, split_char, split_words,
};

verus! {

/// Why an OBJ text could not be turned into mesh data.
#[derive(Debug, Clone, Copy, PartialEq, Eq)]
pub enum WavefrontError {
    CouldNotReadFile,
    InvalidFaceData,
}

/// The statement kinds this importer distinguishes.
#[derive(Debug, Clone, Copy, PartialEq, Eq)]
pub enum WaveFrontLineType {
    GeoVertex,
    TextureVertex,
    VertexNormal,
    ParameterSpaceVert,
    Point,
    Line,
    Face,
    Name,
    GroupeName,
    SmothingGroup,
    MergingGroupe,
    Comment,
    Empty,
    Unknow,
}

/// What `line_type` decides, over the line's characters.
pub open spec fn spec_line_type(s: Seq<char>) -> WaveFrontLineType {
    if s.len() < 2 {
        WaveFrontLineType::Empty
    } else {
        let c0 = s[0];
        let c1 = s[1];
        if c0 == 'v' && c1 == ' ' {
            WaveFrontLineType::GeoVertex
        } else if c0 == 'v' && c1 == 't' {
            WaveFrontLineType::TextureVertex
        } else if c0 == 'v' && c1 == 'n' {
            WaveFrontLineType::VertexNormal
        } else if c0 == 'v' && c1 == 'p' {
            WaveFrontLineType::ParameterSpaceVert
        } else if c0 == 'p' && c1 == ' ' {
            WaveFrontLineType::Point
        } else if c0 == 'l' && c1 == ' ' {
            WaveFrontLineType::Line
        } else if c0 == 'f' && c1 == ' ' {
            WaveFrontLineType::Face
        } else if c0 == 'o' && c1 == ' ' {
            WaveFrontLineType::Name
        } else if c0 == 'g' && c1 == ' ' {
            WaveFrontLineType::GroupeName
        } else if c0 == 's' && c1 == ' ' {
            WaveFrontLineType::SmothingGroup
        } else if c0 == 'm' && c1 == 'g' {
            WaveFrontLineType::MergingGroupe
        } else if c0 == '#' {
            WaveFrontLineType::Comment
        } else {
            WaveFrontLineType::Unknow
        }
    }
}

/// Classifies a line of OBJ text by its opening keyword.
pub fn line_type(line: &str) -> (r: WaveFrontLineType)
    ensures
        r == spec_line_type(line@),
{
    let n = line.unicode_len();
    if n < 2 {
        return WaveFrontLineType::Empty;
    }
    let c0 = line.get_char(0);
    let c1 = line.get_char(1);
    if c0 == 'v' && c1 == ' ' {
        WaveFrontLineType::GeoVertex
    } else if c0 == 'v' && c1 == 't' {
        WaveFrontLineType::TextureVertex
    } else if c0 == 'v' && c1 == 'n' {
        WaveFrontLineType::VertexNormal
    } else if c0 == 'v' && c1 == 'p' {
        WaveFrontLineType::ParameterSpaceVert
    } else if c0 == 'p' && c1 == ' ' {
        WaveFrontLineType::Point
    } else if c0 == 'l' && c1 == ' ' {
        WaveFrontLineType::Line
    } else if c0 == 'f' && c1 == ' ' {
        WaveFrontLineType::Face
    } else if c0 == 'o' && c1 == ' ' {
        WaveFrontLineType::Name
    } else if c0 == 'g' && c1 == ' ' {
        WaveFrontLineType::GroupeName
    } else if c0 == 's' && c1 == ' ' {
        WaveFrontLineType::SmothingGroup
    } else if c0 == 'm' && c1 == 'g' {
        WaveFrontLineType::MergingGroupe
    } else if c0 == '#' {
        WaveFrontLineType::Comment
    } else {
        WaveFrontLineType::Unknow
    }
}

/// One corner reference of a face statement: a geometric vertex index, an
/// optional texture coordinate index, and a vertex normal index.
#[derive(Debug, Clone, Copy, PartialEq, Eq)]
pub struct FaceDataTripelet {
    pub geo_vert_index: u32,
    pub texture_vertex_index: Option<u32>,
    pub vertex_normal_index: u32,
}

/// The corner triplets of a face statement's words from position `i` on:
/// per word, the first slash-field must be an unsigned numeral (the
/// geometric vertex index), the second is kept when present and numeric
/// (the texture index), and the third must be an unsigned numeral (the
/// vertex normal index). Nothing comes out when a required field fails.
pub open spec fn spec_face_items(ws: Seq<Seq<char>>, i: int) -> Option<Seq<FaceDataTripelet>>
    decreases ws.len() - i when 0 <= i <= ws.len()
{
    if i >= ws.len() {
        Some(Seq::empty())
    } else {
        let parts = spec_split_char(ws[i], '/');
        match spec_parse_u32(parts[0]) {
            None => None,
            Some(g) => {
                match (if parts.len() >= 3 {
                    spec_parse_u32(parts[2])
                } else {
                    None
                }) {
                    None => None,
                    Some(nm) => match spec_face_items(ws, i + 1) {
                        None => None,
                        Some(rest) => Some(
                            seq![
                                FaceDataTripelet {
                                    geo_vert_index: g,
                                    texture_vertex_index: if parts.len() >= 2 {
                                        spec_parse_u32(parts[1])
                                    } else {
                                        None
                                    },
                                    vertex_normal_index: nm,
                                },
                            ] + rest,
                        ),
                    },
                }
            },
        }
    }
}

/// What `parse_face` accepts: after cutting a `#` comment off, the first
/// whitespace word must be exactly `f`, and the remaining words must all
/// yield corner triplets.
pub open spec fn spec_parse_face(line: Seq<char>) -> Option<Seq<FaceDataTripelet>> {
    let content = line.subrange(0, spec_find_char(line, '#', 0));
    let ws = spec_words(content);
    if ws.len() >= 1 && ws[0] == seq!['f'] {
        spec_face_items(ws, 1)
    } else {
        None
    }
}

/// Parses an `f` statement into its corner triplets, exactly as
/// `spec_parse_face` describes: rejected when the first word is not `f`, or
/// when any corner lacks a readable geometric vertex or vertex normal index.
pub fn parse_face(line: &str) -> (r: Result<Vec<FaceDataTripelet>, WavefrontError>)
    ensures
        match r {
            Ok(fd) => spec_parse_face(line@) == Some(fd@),
            Err(e) => spec_parse_face(line@) is None && e == WavefrontError::InvalidFaceData,
        },
{
    // cut the comment off, then split into words
    let n = line.unicode_len();
    let hash = find_char_from(line, '#', 0);
    proof {
        crate::wavefront::lemma_find_char_bounds(line@, '#', 0);
    }
    let content = line.substring_char(0, hash);
    let words = split_words(content);
    let ghost ws = spec_words(content@);
    proof {
        assert(words@.map_values(|w: String| w@) =~= ws);
    }
    if words.len() == 0 {
        return Err(WavefrontError::InvalidFaceData);
    }
    // the first word must be exactly `f`
    let head = words[0].as_str();
    proof {
        assert(head@ == ws[0]);
        assert(seq!['f'].len() == 1 && seq!['f'][0] == 'f');
    }
    if !(head.unicode_len() == 1 && head.get_char(0) == 'f') {
        return Err(WavefrontError::InvalidFaceData);
    }
    proof {
        assert(ws[0] =~= seq!['f']);
    }
    let mut face_data: Vec<FaceDataTripelet> = Vec::new();
    let ghost mut items_done: Seq<FaceDataTripelet> = Seq::empty();
    let mut i: usize = 1;
    while i < words.len()
        invariant
            1 <= i <= words@.len(),
            ws == words@.map_values(|w: String| w@),
            ws == spec_words(line@.subrange(0, spec_find_char(line@, '#', 0))),
            ws.len() >= 1 && ws[0] == seq!['f'],
            face_data@ == items_done,
            (spec_face_items(ws, i as int) matches Some(rest) ==> spec_face_items(ws, 1)
                == Some(items_done + rest)),
            (spec_face_items(ws, i as int) is None ==> spec_face_items(ws, 1) is None),
        decreases words@.len() - i,
    {
        let word = &words[i];
        proof {
            assert(ws[i as int] == word@);
        }
        let parts = split_char(word.as_str(), '/');
        proof {
            assert(parts@.map_values(|w: String| w@) == spec_split_char(word@, '/'));
            assert(parts@[0]@ == spec_split_char(word@, '/')[0]);
        }
        let geo_vert_index = match parse_u32(parts[0].as_str()) {
            Some(v) => v,
            None => {
                proof {
                    assert(spec_face_items(ws, i as int) is None);
                }
                return Err(WavefrontError::InvalidFaceData);
            },
        };
        let texture_vertex_index: Option<u32> = if parts.len() >= 2 {
            proof {
                assert(parts@[1]@ == spec_split_char(word@, '/')[1]);
            }
            parse_u32(parts[1].as_str())
        } else {
            None
        };
        let normal: Option<u32> = if parts.len() >= 3 {
            proof {
                assert(parts@[2]@ == spec_split_char(word@, '/')[2]);
            }
            parse_u32(parts[2].as_str())
        } else {
            None
        };
        let vertex_normal_index = match normal {
            Some(v) => v,
            None => {
                proof {
                    assert(spec_face_items(ws, i as int) is None);
                }
                return Err(WavefrontError::InvalidFaceData);
            },
        };
        let triplet = FaceDataTripelet { geo_vert_index, texture_vertex_index, vertex_normal_index };
        face_data.push(triplet);
        proof {
            let prev_done = items_done;
            items_done = items_done.push(triplet);
            match spec_face_items(ws, i + 1 as int) {
                Some(rest2) => {
                    assert(spec_face_items(ws, i as int) == Some(seq![triplet] + rest2));
                    assert(prev_done + (seq![triplet] + rest2) =~= items_done + rest2);
                },
                None => {},
            }
        }
        i = i + 1;
    }
    proof {
        assert(spec_face_items(ws, i as int) == Some(Seq::<FaceDataTripelet>::empty()));
        assert(items_done + Seq::<FaceDataTripelet>::empty() =~= items_done);
    }
    Ok(face_data)
}

/// Parses up to three scalars from a line's words, left to right, keeping
/// `default` where fewer than three words parse.
pub fn parse_triple<T: Copy + FromStr>(line: &str, default: T) -> (r: (T, T, T))
{
    let words = split_words(line);
    let mut out: (T, T, T) = (default, default, default);
    let mut filled: usize = 0;
    let mut i: usize = 0;
    while i < words.len()
        invariant
            i <= words@.len(),
            filled <= 3,
        decreases words@.len() - i,
    {
        if filled < 3 {
            let v: Option<T> = parse_word(words[i].as_str());
            match v {
                Some(x) => {
                    if filled == 0 {
                        out.0 = x;
                    } else if filled == 1 {
                        out.1 = x;
                    } else {
                        out.2 = x;
                    }
                    filled = filled + 1;
                },
                None => {},
            }
        }
        i = i + 1;
    }
    out
}

/// Mesh data read from an OBJ text: a name, the vertex records, and 0-based
/// triangle-fan-ready indices.
#[derive(Debug, Clone)]
pub struct ObjModel<T> {
    pub name: Option<String>,
    pub vertices: Vec<Vertex<T>>,
    pub indices: Vec<u32>,
}

/// The 0-based indices a face's corner triplets contribute: each 1-based
/// geometric vertex index shifted down; nothing when a corner uses the
/// reserved index 0.
pub open spec fn spec_shift_indices(items: Seq<FaceDataTripelet>) -> Option<Seq<u32>>
    decreases items.len(),
{
    if items.len() == 0 {
        Some(Seq::empty())
    } else if items[0].geo_vert_index == 0 {
        None
    } else {
        match spec_shift_indices(items.subrange(1, items.len() as int)) {
            None => None,
            Some(rest) => Some(seq![(items[0].geo_vert_index - 1) as u32] + rest),
        }
    }
}

/// What scanning the text's lines (carriage returns stripped) accumulates:
/// the number of geometric vertex statements, the object name — the last
/// `o` line wins, its text after the keyword — and the faces' shifted
/// corner indices in statement order. Nothing comes out when some face
/// statement is malformed or uses the reserved index 0.
pub open spec fn spec_obj_scan(
    lines: Seq<Seq<char>>,
    i: int,
    geo: int,
    name: Option<Seq<char>>,
    idx: Seq<u32>,
) -> Option<(int, Option<Seq<char>>, Seq<u32>)>
    decreases lines.len() - i when 0 <= i <= lines.len()
{
    if i >= lines.len() {
        Some((geo, name, idx))
    } else {
        let content = spec_rstrip_cr(lines[i]);
        let kind = spec_line_type(content);
        if kind == WaveFrontLineType::Face {
            match spec_parse_face(content) {
                None => None,
                Some(items) => match spec_shift_indices(items) {
                    None => None,
                    Some(more) => spec_obj_scan(lines, i + 1, geo, name, idx + more),
                },
            }
        } else if kind == WaveFrontLineType::GeoVertex {
            spec_obj_scan(lines, i + 1, geo + 1, name, idx)
        } else if kind == WaveFrontLineType::Name {
            spec_obj_scan(lines, i + 1, geo, Some(content.subrange(2, content.len() as int)), idx)
        } else {
            spec_obj_scan(lines, i + 1, geo, name, idx)
        }
    }
}

/// Builds mesh data from OBJ text, exactly as `spec_obj_scan` over the
/// text's lines describes: one vertex record per geometric vertex
/// statement — its position's scalars from the statement (`fill_one` as the
/// homogeneous coordinate), matched positionally with the normal and
/// texture statements where present, `fill_zero` padding the rest — the
/// faces' 1-based corner indices shifted down to 0-based in statement
/// order, and the last `o` statement's text as the name. A face statement
/// that does not parse, or that uses the reserved index 0, rejects the
/// text.
#[verifier::rlimit(50)]
pub fn load_wavefront_text<T: Copy + FromStr>(text: &str, fill_zero: T, fill_one: T) -> (r: Result<
    ObjModel<T>,
    WavefrontError,
>)
    ensures
        ({
            let scan = spec_obj_scan(
                spec_split_char(text@, '\n'),
                0,
                0,
                None,
                Seq::empty(),
            );
            match r {
                Ok(m) => scan matches Some(acc) && {
                    &&& m.vertices@.len() == acc.0
                    &&& (match m.name {
                        Some(s) => acc.1 == Some(s@),
                        None => acc.1 is None,
                    })
                    &&& m.indices@ == acc.2
                    &&& forall|v: int|
                        0 <= v < m.vertices@.len() ==> (#[trigger] m.vertices@[v]).position@[3]
                            == fill_one
                },
                Err(e) => scan is None && e == WavefrontError::InvalidFaceData,
            }
        }),
{
    let lines = split_char(text, '\n');
    let ghost ls = spec_split_char(text@, '\n');
    proof {
        assert(lines@.map_values(|w: String| w@) =~= ls);
    }
    let mut name: Option<String> = None;
    let mut geo: Vec<(T, T, T)> = Vec::new();
    let mut texture: Vec<(T, T, T)> = Vec::new();
    let mut normal: Vec<(T, T, T)> = Vec::new();
    let mut indices: Vec<u32> = Vec::new();
    let mut li: usize = 0;
    while li < lines.len()
        invariant
            li <= lines@.len(),
            ls == lines@.map_values(|w: String| w@),
            ls == spec_split_char(text@, '\n'),
            spec_obj_scan(ls, 0, 0, None, Seq::empty()) == spec_obj_scan(
                ls,
                li as int,
                geo@.len() as int,
                match name {
                    Some(s) => Some(s@),
                    None => None,
                },
                indices@,
            ),
        decreases lines@.len() - li,
    {
        // drop a trailing carriage return
        let raw = lines[li].as_str();
        proof {
            assert(ls[li as int] == raw@);
        }
        let rn = raw.unicode_len();
        let line = if rn > 0 && raw.get_char(rn - 1) == '\r' {
            raw.substring_char(0, rn - 1)
        } else {
            raw
        };
        proof {
            assert(line@ == spec_rstrip_cr(ls[li as int]));
        }
        match line_type(line) {
            WaveFrontLineType::GeoVertex => geo.push(parse_triple(line, fill_zero)),
            WaveFrontLineType::TextureVertex => texture.push(parse_triple(line, fill_zero)),
            WaveFrontLineType::VertexNormal => normal.push(parse_triple(line, fill_zero)),
            WaveFrontLineType::Face => {
                let fd = match parse_face(line) {
                    Ok(fd) => fd,
                    Err(e) => {
                        return Err(e);
                    },
                };
                // shift each corner's 1-based index down as we go
                let ghost before = indices@;
                let mut ci: usize = 0;
                proof {
                    assert(fd@.subrange(0, fd@.len() as int) =~= fd@);
                    assert(spec_first_shifts(fd@, 0) =~= Seq::<u32>::empty());
                    match spec_shift_indices(fd@) {
                        Some(rest) => {
                            assert(spec_first_shifts(fd@, 0) + rest =~= rest);
                        },
                        None => {},
                    }
                    assert(before + spec_first_shifts(fd@, 0) =~= before);
                }
                while ci < fd.len()
                    invariant
                        ci <= fd@.len(),
                        spec_parse_face(line@) == Some(fd@),
                        line@ == spec_rstrip_cr(ls[li as int]),
                        li < ls.len(),
                        ls == spec_split_char(text@, '\n'),
                        spec_line_type(line@) == WaveFrontLineType::Face,
                        indices@ == before + spec_first_shifts(fd@, ci as int),
                        (spec_shift_indices(fd@.subrange(ci as int, fd@.len() as int)) matches
                            Some(rest) ==> spec_shift_indices(fd@) == Some(
                            spec_first_shifts(fd@, ci as int) + rest,
                        )),
                        (spec_shift_indices(fd@.subrange(ci as int, fd@.len() as int)) is None
                            ==> spec_shift_indices(fd@) is None),
                        spec_obj_scan(ls, 0, 0, None, Seq::empty()) == spec_obj_scan(
                            ls,
                            li as int,
                            geo@.len() as int,
                            match name {
                                Some(s) => Some(s@),
                                None => None,
                            },
                            before,
                        ),
                    decreases fd@.len() - ci,
                {
                    let ghost cur = fd@.subrange(ci as int, fd@.len() as int);
                    proof {
                        assert(cur.subrange(1, cur.len() as int) =~= fd@.subrange(
                            ci + 1 as int,
                            fd@.len() as int,
                        ));
                    }
                    let idx = fd[ci].geo_vert_index;
                    if idx == 0 {
                        proof {
                            assert(spec_shift_indices(fd@) is None);
                        }
                        return Err(WavefrontError::InvalidFaceData);
                    }
                    indices.push(idx - 1);
                    proof {
                        assert(spec_first_shifts(fd@, ci + 1 as int) =~= spec_first_shifts(
                            fd@,
                            ci as int,
                        ).push((fd@[ci as int].geo_vert_index - 1) as u32));
                        match spec_shift_indices(fd@.subrange(ci + 1 as int, fd@.len() as int)) {
                            Some(rest2) => {
                                assert(spec_shift_indices(cur) == Some(
                                    seq![(fd@[ci as int].geo_vert_index - 1) as u32] + rest2,
                                ));
                                assert(spec_first_shifts(fd@, ci as int) + (seq![
                                    (fd@[ci as int].geo_vert_index - 1) as u32,
                                ] + rest2) =~= spec_first_shifts(fd@, ci + 1 as int) + rest2);
                            },
                            None => {},
                        }
                    }
                    ci = ci + 1;
                }
                proof {
                    assert(fd@.subrange(fd@.len() as int, fd@.len() as int) =~= Seq::<
                        FaceDataTripelet,
                    >::empty());
                    assert(spec_shift_indices(fd@) == Some(spec_first_shifts(fd@, fd@.len() as int)));
                }
            },
            WaveFrontLineType::Name => {
                let ln = line.unicode_len();
                proof {
                    assert(line@.len() >= 2);
                }
                name = Some(line.substring_char(2, ln).to_owned());
            },
            _ => {},
        }
        li = li + 1;
    }
    // assemble vertex records, padding the attributes positionally
    let ghost geo_count = geo@.len();
    let mut vertices: Vec<Vertex<T>> = Vec::new();
    let mut vi: usize = 0;
    while vi < geo.len()
        invariant
            vi <= geo@.len(),
            vertices@.len() == vi,
            forall|v: int|
                0 <= v < vertices@.len() ==> (#[trigger] vertices@[v]).position@[3] == fill_one,
        decreases geo@.len() - vi,
    {
        let p = geo[vi];
        let nm: (T, T, T) = if vi < normal.len() {
            normal[vi]
        } else {
            (fill_zero, fill_zero, fill_zero)
        };
        let tx: (T, T, T) = if vi < texture.len() {
            texture[vi]
        } else {
            (fill_zero, fill_zero, fill_zero)
        };
        vertices.push(
            Vertex::new([p.0, p.1, p.2, fill_one], [nm.0, nm.1, nm.2], [tx.0, tx.1, tx.2]),
        );
        vi = vi + 1;
    }
    Ok(ObjModel { name, vertices, indices })
}

/// The shifted indices of the first `k` corner triplets, all of which are
/// known to be nonzero.
pub open spec fn spec_first_shifts(items: Seq<FaceDataTripelet>, k: int) -> Seq<u32> {
    Seq::new(
        (if 0 <= k <= items.len() {
            k
        } else {
            0
        }) as nat,
        |j: int| (items[j].geo_vert_index - 1) as u32,
    )
}

} // verus!
