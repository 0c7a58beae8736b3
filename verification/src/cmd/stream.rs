//! The stream command's producer URL: the relay's WebSocket URL with the
//! terminal type and shell as query parameters.
use vstd::prelude::*;
use crate::urls::{form_encode, form_encoded, pair_texts, set_url_query, url_parse_result, url_with_query};

verus! {

/// The query parameters: the terminal type and the shell, each under its
/// own name and as an environment variable, leaving out empty values.
pub open spec fn producer_params(term: Seq<char>, shell: Seq<char>) -> Seq<(Seq<char>, Seq<char>)> {
    let all = seq![
        ("term[type]"@, term),
        ("shell"@, shell),
        ("env[TERM]"@, term),
        ("env[SHELL]"@, shell),
    ];
    keep_nonempty(all)
}

/// The pairs whose value is not empty, in order.
pub open spec fn keep_nonempty(ps: Seq<(Seq<char>, Seq<char>)>) -> Seq<(Seq<char>, Seq<char>)>
    decreases ps.len(),
{
    if ps.len() == 0 {
        ps
    } else if ps.last().1.len() != 0 {
        keep_nonempty(ps.drop_last()).push(ps.last())
    } else {
        keep_nonempty(ps.drop_last())
    }
}

/// The producer URL: `url` with its query replaced by the form-encoded
/// parameters (see `producer_params`); the URL's parse error when it does
/// not parse. An unset variable counts as empty.
pub fn build_producer_url(url: &str, term: Option<String>, shell: Option<String>) -> (r: Result<
    String,
    String,
>)
    ensures
        ({
            let t = match term {
                Some(x) => x@,
                None => Seq::<char>::empty(),
            };
            let sh = match shell {
                Some(x) => x@,
                None => Seq::<char>::empty(),
            };
            match url_parse_result(url@) {
                Err((_, m)) => r matches Err(e) && e@ == m,
                Ok(_) => r matches Ok(u) && url_with_query(
                    url@,
                    form_encoded(producer_params(t, sh)),
                ) == Some(u@),
            }
        }),
{
    if let Err((_, m)) = crate::urls::parse_url(url) {
        return Err(m);
    }
    let ghost old_term = term;
    let term = match term {
        Some(x) => x,
        None => String::new(),
    };
    let shell = match shell {
        Some(x) => x,
        None => String::new(),
    };
    assert(term@ == match old_term { Some(x) => x@, None => Seq::<char>::empty() });
    let all: Vec<(String, String)> = vec![
        ("term[type]".to_string(), term.clone()),
        ("shell".to_string(), shell.clone()),
        ("env[TERM]".to_string(), term),
        ("env[SHELL]".to_string(), shell),
    ];
    let ghost all_texts = pair_texts(all@);
    assert(all_texts =~= seq![
        ("term[type]"@, term@),
        ("shell"@, shell@),
        ("env[TERM]"@, term@),
        ("env[SHELL]"@, shell@),
    ]);
    let mut params: Vec<(String, String)> = Vec::new();
    let mut i: usize = 0;
    while i < all.len()
        invariant
            i <= all.len(),
            all_texts == pair_texts(all@),
            pair_texts(params@) == keep_nonempty(all_texts.take(i as int)),
        decreases all.len() - i,
    {
        proof {
            let t = all_texts.take(i + 1);
            assert(t.drop_last() =~= all_texts.take(i as int));
            assert(t.last() == all_texts[i as int]);
        }
        if !all[i].1.as_str().is_empty() {
            let ghost before = params@;
            let name = all[i].0.clone();
            let value = all[i].1.clone();
            params.push((name, value));
            assert(pair_texts(params@) =~= pair_texts(before).push(all_texts[i as int]));
        }
        i = i + 1;
    }
    assert(all_texts.take(i as int) =~= all_texts);
    let query = form_encode(&params);
    match set_url_query(url, query.as_str()) {
        Some(u) => Ok(u),
        None => Err(String::new()),
    }
}

} // verus!
