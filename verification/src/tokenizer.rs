//! The tokenizer: discovers the three self-described delimiter characters
//! at the fixed header offsets, then splits the document into segments and
//! each segment into elements.

use crate::edi_parse_error::EdiParseError;
use crate::edi_parse_error::EdiParseErrorKind;
use crate::text::clean_segments;
use crate::text::groups_view;
use crate::text::split_all;
use crate::text::split_on;
use crate::text::split_string;
use crate::text::strs_view;
use crate::text::token_groups;
use crate::text::trim_of;
use crate::text::trimmed;
use vstd::prelude::*;
use vstd::string::StrSliceExecFns;

verus! {

/// What the tokenizer yields: one token group per segment (each an ordered
/// list of element strings) and the three delimiters the document declared.
pub struct TokenizeResult {
    /// The token groups, one per nonempty segment, in document order.
    pub tokens: Vec<Vec<String>>,
    /// The separator between elements within a segment.
    pub element_delimiter: char,
    /// The separator between sub-elements within an element (not split
    /// further by this tokenizer).
    pub sub_element_delimiter: char,
    /// The separator between segments.
    pub segment_delimiter: char,
}

/// The mathematical image of a [`TokenizeResult`].
#[verifier::ext_equal]
pub ghost struct TokensView {
    pub tokens: Seq<Seq<Seq<char>>>,
    pub element_delimiter: char,
    pub sub_element_delimiter: char,
    pub segment_delimiter: char,
}

impl View for TokenizeResult {
    type V = TokensView;

    open spec fn view(&self) -> TokensView {
        TokensView {
            tokens: groups_view(self.tokens@),
            element_delimiter: self.element_delimiter,
            sub_element_delimiter: self.sub_element_delimiter,
            segment_delimiter: self.segment_delimiter,
        }
    }
}

/// What tokenization yields on any input: the delimiters are the three
/// characters at the fixed header offsets, the input is split on the
/// segment delimiter, each piece is trimmed and dropped if blank, and each
/// remaining piece is split on the element delimiter. An input too short
/// to reach the delimiter offsets, or one whose three delimiters are not
/// pairwise distinct, is rejected.
pub open spec fn tokenize_spec(input: Seq<char>) -> Result<TokensView, EdiParseErrorKind> {
    if input.len() < 106 {
        Err(EdiParseErrorKind::TruncatedInput)
    } else {
        let e = input[103];
        let sub = input[104];
        let seg = input[105];
        if e == sub || sub == seg || e == seg {
            Err(EdiParseErrorKind::DelimiterCollision)
        } else {
            Ok(
                TokensView {
                    tokens: token_groups(input, e, seg),
                    element_delimiter: e,
                    sub_element_delimiter: sub,
                    segment_delimiter: seg,
                },
            )
        }
    }
}

/// Split the whole document into segment token groups, or fail on a
/// truncated header or colliding delimiters.
pub fn tokenize(input: &str) -> (r: Result<TokenizeResult, EdiParseError>)
    ensures
        (r is Ok) == (tokenize_spec(input@) is Ok),
        r is Ok ==> r->Ok_0@ == tokenize_spec(input@)->Ok_0,
        r is Err ==> r->Err_0.kind == tokenize_spec(input@)->Err_0,
        r is Err ==> r->Err_0.error_segment is None,
{
    let n: usize = input.unicode_len();
    if n < 106 {
        return Err(
            EdiParseError::new(
                EdiParseErrorKind::TruncatedInput,
                "input not long enough to contain ISA header delimiters",
                None,
            ),
        );
    }
    let element_delimiter = input.get_char(103);
    let sub_element_delimiter = input.get_char(104);
    let segment_delimiter = input.get_char(105);
    if element_delimiter == sub_element_delimiter {
        return Err(
            EdiParseError::new(
                EdiParseErrorKind::DelimiterCollision,
                "element and subelement delimiters cannot be the same",
                None,
            ),
        );
    }
    if sub_element_delimiter == segment_delimiter {
        return Err(
            EdiParseError::new(
                EdiParseErrorKind::DelimiterCollision,
                "subelement and segment delimiters cannot be the same",
                None,
            ),
        );
    }
    if element_delimiter == segment_delimiter {
        return Err(
            EdiParseError::new(
                EdiParseErrorKind::DelimiterCollision,
                "element and segment delimiters cannot be the same",
                None,
            ),
        );
    }
    let raw = split_string(input, segment_delimiter);
    let mut segs: Vec<String> = Vec::new();
    let mut i: usize = 0;
    proof {
        assert(strs_view(raw@).take(0) =~= Seq::<Seq<char>>::empty());
        assert(strs_view(segs@) =~~= clean_segments(strs_view(raw@).take(0)));
    }
    while i < raw.len()
        invariant
            0 <= i <= raw@.len(),
            strs_view(segs@) == clean_segments(strs_view(raw@).take(i as int)),
        decreases raw@.len() - i,
    {
        let ti = trim_of(raw[i].as_str());
        proof {
            assert(strs_view(raw@).take(i as int + 1).drop_last() =~= strs_view(raw@).take(
                i as int,
            ));
            assert(strs_view(raw@).take(i as int + 1).last() == raw@[i as int]@);
        }
        if !ti.as_str().is_empty() {
            segs.push(ti);
            proof {
                assert(strs_view(segs@) =~~= clean_segments(strs_view(raw@).take(i as int + 1)));
            }
        } else {
            proof {
                assert(strs_view(segs@) =~~= clean_segments(strs_view(raw@).take(i as int + 1)));
            }
        }
        i = i + 1;
    }
    proof {
        assert(strs_view(raw@).take(raw@.len() as int) =~= strs_view(raw@));
    }
    let mut tokens: Vec<Vec<String>> = Vec::new();
    let mut j: usize = 0;
    proof {
        assert(strs_view(segs@).take(0) =~= Seq::<Seq<char>>::empty());
        assert(groups_view(tokens@) =~~= split_all(strs_view(segs@).take(0), element_delimiter));
    }
    while j < segs.len()
        invariant
            0 <= j <= segs@.len(),
            groups_view(tokens@) == split_all(
                strs_view(segs@).take(j as int),
                element_delimiter,
            ),
        decreases segs@.len() - j,
    {
        let group = split_string(segs[j].as_str(), element_delimiter);
        proof {
            assert(strs_view(segs@).take(j as int + 1).drop_last() =~= strs_view(segs@).take(
                j as int,
            ));
            assert(strs_view(segs@).take(j as int + 1).last() == segs@[j as int]@);
        }
        tokens.push(group);
        proof {
            assert(groups_view(tokens@) =~~= split_all(
                strs_view(segs@).take(j as int + 1),
                element_delimiter,
            ));
        }
        j = j + 1;
    }
    proof {
        assert(strs_view(segs@).take(segs@.len() as int) =~= strs_view(segs@));
    }
    let result = TokenizeResult { tokens, element_delimiter, sub_element_delimiter, segment_delimiter };
    proof {
        assert(result@ =~~= tokenize_spec(input@)->Ok_0);
    }
    Ok(result)
}

} // verus!
