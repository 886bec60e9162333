use vstd::prelude::*;

verus! {

/// The separator between a target and its annotation.
pub open spec fn sep() -> Seq<u8> {
    seq![0x20u8, 0x3du8, 0x3eu8, 0x20u8]
}

/// The line-ending every persisted line carries.
pub open spec fn crlf() -> Seq<u8> {
    seq![0x0du8, 0x0au8]
}

/// The printed form of one success: the target alone, or
/// "target => annotation".
pub open spec fn line_of(target: Seq<u8>, note: Option<Seq<u8>>) -> Seq<u8> {
    match note {
        Some(h) => target + sep() + h,
        None => target,
    }
}

/// The persisted file: every line in order, each closed by the line ending.
pub open spec fn file_image(lines: Seq<Seq<u8>>) -> Seq<u8>
    decreases lines.len(),
{
    if lines.len() == 0 {
        Seq::empty()
    } else {
        file_image(lines.drop_last()) + lines.last() + crlf()
    }
}

/// Append a byte string.
pub fn push_bytes(out: &mut Vec<u8>, s: &[u8])
    ensures
        final(out)@ == old(out)@ + s@,
{
    let mut k: usize = 0;
    while k < s.len()
        invariant
            k <= s@.len(),
            out@ == old(out)@ + s@.subrange(0, k as int),
        decreases s@.len() - k,
    {
        out.push(s[k]);
        proof {
            assert(old(out)@ + s@.subrange(0, k as int + 1) =~= (old(out)@ + s@.subrange(
                0,
                k as int,
            )).push(s@[k as int]));
        }
        k = k + 1;
    }
    proof {
        assert(s@.subrange(0, s@.len() as int) =~= s@);
    }
}

/// Render one success as its printed line.
pub fn render_line(target: &[u8], note: Option<&Vec<u8>>) -> (r: Vec<u8>)
    ensures
        r@ == line_of(target@, match note {
            Some(h) => Some(h@),
            None => None,
        }),
{
    let mut out: Vec<u8> = Vec::new();
    push_bytes(&mut out, target);
    match note {
        Some(h) => {
            out.push(0x20);
            out.push(0x3d);
            out.push(0x3e);
            out.push(0x20);
            push_bytes(&mut out, h.as_slice());
            proof {
                assert(out@ =~= line_of(target@, Some(h@)));
            }
        },
        None => {
            proof {
                assert(out@ =~= line_of(target@, None));
            }
        },
    }
    out
}

/// Render the whole output file from its lines.
pub fn render_file(lines: &Vec<Vec<u8>>) -> (r: Vec<u8>)
    ensures
        r@ == file_image(lines.deep_view()),
{
    let mut out: Vec<u8> = Vec::new();
    let mut k: usize = 0;
    while k < lines.len()
        invariant
            k <= lines@.len(),
            out@ == file_image(lines.deep_view().take(k as int)),
        decreases lines@.len() - k,
    {
        push_bytes(&mut out, lines[k].as_slice());
        out.push(0x0d);
        out.push(0x0a);
        proof {
            let dv = lines.deep_view();
            assert(dv.take(k as int + 1).drop_last() =~= dv.take(k as int));
            assert(dv.take(k as int + 1).last() == dv[k as int]);
            assert(dv[k as int] == lines@[k as int]@);
            assert(out@ =~= file_image(dv.take(k as int)) + dv[k as int] + crlf());
        }
        k = k + 1;
    }
    proof {
        assert(lines.deep_view().take(lines@.len() as int) =~= lines.deep_view());
    }
    out
}

} // verus!
