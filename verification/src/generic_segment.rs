//! A generic (non-envelope) segment: a tag and its ordered elements.

use crate::edi_parse_error::EdiParseError;
use crate::edi_parse_error::EdiParseErrorKind;
use crate::text::join_on;
use crate::text::join_strings;
use crate::text::strs_view;
use crate::text::trim_each;
use crate::text::trim_of;
use crate::text::trimmed;
use vstd::prelude::*;

verus! {

/// A generic segment: every token group whose tag is none of the six
/// envelope tags becomes one of these.
#[derive(Debug, PartialEq)]
pub struct GenericSegment {
    /// The first element in the segment, which denotes the segment type.
    pub segment_abbreviation: String,
    /// The ordered list of the segment's remaining elements.
    pub elements: Vec<String>,
}

/// The mathematical image of a [`GenericSegment`].
#[verifier::ext_equal]
pub ghost struct GenericSegmentView {
    pub segment_abbreviation: Seq<char>,
    pub elements: Seq<Seq<char>>,
}

impl View for GenericSegment {
    type V = GenericSegmentView;

    open spec fn view(&self) -> GenericSegmentView {
        GenericSegmentView {
            segment_abbreviation: self.segment_abbreviation@,
            elements: strs_view(self.elements@),
        }
    }
}

/// The views of a sequence of generic segments.
pub open spec fn segs_view(v: Seq<GenericSegment>) -> Seq<GenericSegmentView> {
    Seq::new(v.len(), |i: int| v[i]@)
}

/// What parsing a token group into a generic segment yields: the trimmed
/// first token is the tag and the trimmed rest are the elements; a group
/// of fewer than two tokens is rejected.
pub open spec fn seg_from_tokens(tokens: Seq<Seq<char>>) -> Result<
    GenericSegmentView,
    EdiParseErrorKind,
> {
    if tokens.len() < 2 {
        Err(EdiParseErrorKind::MalformedSegment)
    } else {
        Ok(
            GenericSegmentView {
                segment_abbreviation: trimmed(tokens[0]),
                elements: trim_each(tokens).drop_first(),
            },
        )
    }
}

/// The X12 text of one generic segment: its tag and elements joined by
/// the element delimiter.
pub open spec fn seg_line(v: GenericSegmentView, elem_d: char) -> Seq<char> {
    join_on(seq![v.segment_abbreviation] + v.elements, elem_d)
}

/// The X12 text of a run of generic segments, one line each.
pub open spec fn seg_lines(ss: Seq<GenericSegmentView>, elem_d: char) -> Seq<Seq<char>> {
    Seq::new(ss.len(), |i: int| seg_line(ss[i], elem_d))
}

impl GenericSegment {
    /// Construct a [`GenericSegment`] from one segment's token group.
    pub fn parse_from_tokens(tokens: Vec<String>) -> (r: Result<GenericSegment, EdiParseError>)
        ensures
            (r is Ok) == (seg_from_tokens(strs_view(tokens@)) is Ok),
            r is Ok ==> r->Ok_0@ == seg_from_tokens(strs_view(tokens@))->Ok_0,
            r is Err ==> r->Err_0.kind == seg_from_tokens(strs_view(tokens@))->Err_0,
            r is Err ==> r->Err_0.error_segment is Some && r->Err_0.error_segment->0@ == tokens@,
    {
        if tokens.len() < 2 {
            return Err(
                EdiParseError::new(
                    EdiParseErrorKind::MalformedSegment,
                    "at least two elements are required in a segment",
                    Some(tokens),
                ),
            );
        }
        let segment_abbreviation = trim_of(tokens[0].as_str());
        let mut elements: Vec<String> = Vec::new();
        let mut i: usize = 1;
        proof {
            assert(strs_view(elements@) =~~= trim_each(strs_view(tokens@)).subrange(1, 1));
        }
        while i < tokens.len()
            invariant
                1 <= i <= tokens@.len(),
                strs_view(elements@) == trim_each(strs_view(tokens@)).subrange(1, i as int),
            decreases tokens@.len() - i,
        {
            proof {
                assert(trim_each(strs_view(tokens@)).len() == tokens@.len());
                assert(trim_each(strs_view(tokens@)).subrange(1, i as int).len() == i - 1);
                assert(strs_view(elements@).len() == elements@.len());
                assert(elements@.len() == i as int - 1);
            }
            let piece = trim_of(tokens[i].as_str());
            elements.push(piece);
            proof {
                assert(elements@.len() == i as int);
                assert(strs_view(elements@).len() == i as int);
                assert(strs_view(elements@)[i as int - 1] == trimmed(tokens@[i as int]@));
                assert(strs_view(elements@) =~~= trim_each(strs_view(tokens@)).subrange(
                    1,
                    i as int + 1,
                ));
            }
            i = i + 1;
        }
        let result = GenericSegment { segment_abbreviation, elements };
        proof {
            assert(trim_each(strs_view(tokens@)).subrange(1, tokens@.len() as int) =~~= trim_each(
                strs_view(tokens@),
            ).drop_first());
            assert(result@ =~~= seg_from_tokens(strs_view(tokens@))->Ok_0);
        }
        Ok(result)
    }

    /// Convert this segment back into its X12 line.
    pub fn to_x12_string(&self, element_delimiter: char) -> (r: String)
        ensures
            r@ == seg_line(self@, element_delimiter),
    {
        let mut parts: Vec<String> = Vec::new();
        parts.push(self.segment_abbreviation.clone());
        let mut i: usize = 0;
        proof {
            assert(strs_view(parts@) =~~= seq![self.segment_abbreviation@] + strs_view(
                self.elements@,
            ).take(0));
        }
        while i < self.elements.len()
            invariant
                0 <= i <= self.elements@.len(),
                strs_view(parts@) == seq![self.segment_abbreviation@] + strs_view(
                    self.elements@,
                ).take(i as int),
            decreases self.elements@.len() - i,
        {
            proof {
                assert(strs_view(self.elements@).len() == self.elements@.len());
                assert(strs_view(parts@).len() == parts@.len());
                assert(parts@.len() == i as int + 1);
            }
            let piece = self.elements[i].clone();
            proof {
                assert(piece@ == self.elements@[i as int]@);
            }
            parts.push(piece);
            proof {
                assert(strs_view(parts@).len() == parts@.len());
                assert(strs_view(parts@).len() == i as int + 2);
                assert(parts@[i as int + 1]@ == self.elements@[i as int]@);
                assert(strs_view(self.elements@).take(i as int + 1).len() == i + 1);
                assert(strs_view(parts@)[i as int + 1] == self.elements@[i as int]@);
                let rhs = seq![self.segment_abbreviation@] + strs_view(self.elements@).take(
                    i as int + 1,
                );
                assert forall|k: int| 0 <= k < strs_view(parts@).len() implies strs_view(
                    parts@,
                )[k] == rhs[k] by {
                    assert(strs_view(parts@)[k] == parts@[k]@);
                    if k <= i as int {
                        assert(rhs[k] == (seq![self.segment_abbreviation@] + strs_view(
                            self.elements@,
                        ).take(i as int))[k]);
                    }
                }
                assert(strs_view(parts@) =~~= rhs);
            }
            i = i + 1;
        }
        proof {
            assert(strs_view(self.elements@).take(self.elements@.len() as int) =~~= strs_view(
                self.elements@,
            ));
            assert(strs_view(parts@) =~~= seq![self@.segment_abbreviation] + self@.elements);
        }
        join_strings(&parts, element_delimiter)
    }
}

} // verus!
