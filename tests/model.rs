use word2vec::dict::Dict;
use word2vec::error::W2vError;
use word2vec::matrix::Matrix;
use word2vec::model::Word2vec;
use word2vec::rank::{rank_indices, score_key};
use word2vec::text::decimal_string;

fn bits(values: &[f32]) -> Vec<u32> {
    values.iter().map(|v| v.to_bits()).collect()
}

fn dict_of(entries: &[(&str, u64)]) -> Dict {
    let mut d = Dict::new();
    for (w, c) in entries {
        d.add_word(w, *c);
    }
    d
}

fn model_of(entries: &[(&str, u64)], dim: usize, syn0: &[f32]) -> Word2vec {
    let rows = entries.len();
    let syn0 = Matrix::new(rows, dim, bits(syn0));
    let syn1neg = Matrix::new(rows, dim, vec![0u32; rows * dim]);
    Word2vec::new(syn0, syn1neg, dim, dict_of(entries))
}

fn dot_scores(model: &Word2vec, index: usize) -> Vec<u32> {
    let m = model.syn0();
    let q: Vec<f32> = m.get_row(index).unwrap().iter().map(|b| f32::from_bits(*b)).collect();
    (0..m.rows())
        .map(|i| {
            let r = m.get_row(i).unwrap();
            let s: f32 = r.iter().zip(q.iter()).map(|(a, b)| f32::from_bits(*a) * b).sum();
            s.to_bits()
        })
        .collect()
}

fn component_texts(model: &Word2vec) -> Vec<String> {
    let m = model.syn0();
    let mut out = Vec::new();
    for i in 0..m.rows() {
        for b in m.get_row(i).unwrap() {
            out.push(f32::from_bits(b).to_string());
        }
    }
    out
}

#[test]
fn save_layout_two_words() {
    let model = model_of(&[("a", 5), ("b", 3)], 2, &[1.0, 2.0, 3.0, 4.0]);
    assert_eq!(model.freq_text(), "2 2\na 5\nb 3\n");
    let texts = component_texts(&model);
    assert_eq!(model.vector_text(&texts), "2 2\na 1 2 \nb 3 4 \n");
}

#[test]
fn save_layout_empty_dictionary() {
    let model = model_of(&[], 3, &[]);
    assert_eq!(model.freq_text(), "0 3\n");
    assert_eq!(model.vector_text(&Vec::new()), "0 3\n");
}

#[test]
fn save_layout_fractional_components() {
    let model = model_of(&[("hello", 12)], 1, &[-0.5]);
    assert_eq!(model.freq_text(), "1 1\nhello 12\n");
    let texts = component_texts(&model);
    assert_eq!(model.vector_text(&texts), "1 1\nhello -0.5 \n");
}

#[test]
fn unknown_word_is_an_error() {
    let model = model_of(&[("cat", 1), ("dog", 1)], 2, &[1.0, 0.0, 0.0, 1.0]);
    let scores = vec![0u32; 2];
    assert_eq!(model.most_similar("zzz", None, &scores), Err(W2vError::UnknownWord));
}

#[test]
fn query_includes_itself_with_squared_norm() {
    let model = model_of(&[("cat", 1), ("dog", 1), ("car", 1)], 2, &[3.0, 4.0, 1.0, 0.0, 0.0, 1.0]);
    let scores = dot_scores(&model, 0);
    let r = model.most_similar("cat", Some(10), &scores).unwrap();
    assert_eq!(r.len(), 3);
    assert_eq!(r[0], (25.0f32.to_bits(), "cat".to_string()));
    assert_eq!(r[1], (4.0f32.to_bits(), "car".to_string()));
    assert_eq!(r[2], (3.0f32.to_bits(), "dog".to_string()));
}

#[test]
fn query_is_sorted_descending_with_ties_in_index_order() {
    let model = model_of(&[("a", 1), ("b", 1), ("c", 1), ("d", 1)], 1, &[1.0, 2.0, -3.0, 2.0]);
    let scores = dot_scores(&model, 1);
    let r = model.most_similar("b", None, &scores).unwrap();
    let words: Vec<&str> = r.iter().map(|p| p.1.as_str()).collect();
    assert_eq!(words, vec!["b", "d", "a", "c"]);
    let values: Vec<f32> = r.iter().map(|p| f32::from_bits(p.0)).collect();
    assert_eq!(values, vec![4.0, 4.0, 2.0, -6.0]);
    for k in 1..values.len() {
        assert!(values[k - 1] >= values[k]);
    }
}

#[test]
fn query_takes_top_n() {
    let model = model_of(&[("a", 1), ("b", 1), ("c", 1)], 1, &[1.0, 3.0, 2.0]);
    let scores = dot_scores(&model, 0);
    let r = model.most_similar("a", Some(2), &scores).unwrap();
    assert_eq!(r, vec![(3.0f32.to_bits(), "b".to_string()), (2.0f32.to_bits(), "c".to_string())]);
    let none = model.most_similar("a", Some(0), &scores).unwrap();
    assert!(none.is_empty());
}

#[test]
fn query_defaults_to_ten() {
    let names: Vec<String> = (0..12).map(|i| format!("w{}", i)).collect();
    let entries: Vec<(&str, u64)> = names.iter().map(|n| (n.as_str(), 1)).collect();
    let values: Vec<f32> = (0..12).map(|i| i as f32).collect();
    let model = model_of(&entries, 1, &values);
    let scores = dot_scores(&model, 11);
    let r = model.most_similar("w11", None, &scores).unwrap();
    assert_eq!(r.len(), 10);
    assert_eq!(r[0].1, "w11");
    assert_eq!(r[9].1, "w2");
}

#[test]
fn rows_have_dim_values() {
    let m = Matrix::new(3, 2, bits(&[1.0, 2.0, 3.0, 4.0, 5.0, 6.0]));
    for i in 0..3 {
        assert_eq!(m.get_row(i).unwrap().len(), 2);
    }
    assert_eq!(m.get_row(1).unwrap(), bits(&[3.0, 4.0]));
    assert_eq!(m.get_row(3), Err(W2vError::IndexOutOfRange));
}

#[test]
fn set_row_replaces_one_row() {
    let mut m = Matrix::new(2, 2, bits(&[1.0, 2.0, 3.0, 4.0]));
    assert_eq!(m.set_row(1, &bits(&[0.5, 0.25])), Ok(()));
    assert_eq!(m.get_row(0).unwrap(), bits(&[1.0, 2.0]));
    assert_eq!(m.get_row(1).unwrap(), bits(&[0.5, 0.25]));
    assert_eq!(m.set_row(2, &bits(&[9.0, 9.0])), Err(W2vError::IndexOutOfRange));
    assert_eq!(m.get_row(1).unwrap(), bits(&[0.5, 0.25]));
}

#[test]
fn model_row_update_leaves_output_vectors() {
    let mut model = model_of(&[("a", 1), ("b", 1)], 1, &[2.0, 3.0]);
    assert_eq!(model.set_syn0_row(0, &bits(&[1.0])), Ok(()));
    assert_eq!(model.syn0().get_row(0).unwrap(), bits(&[1.0]));
    assert_eq!(model.syn1neg().get_row(0).unwrap(), vec![0u32]);
    assert_eq!(model.set_syn0_row(2, &bits(&[1.0])), Err(W2vError::IndexOutOfRange));
    assert_eq!(model.dim(), 1);
    assert_eq!(model.dict().size(), 2);
}

#[test]
fn dictionary_lookups() {
    let d = dict_of(&[("a", 5), ("b", 3)]);
    assert_eq!(d.size(), 2);
    assert_eq!(d.index_of("b"), Ok(1));
    assert_eq!(d.index_of("c"), Err(W2vError::UnknownWord));
    assert_eq!(d.word_at(0), Ok("a".to_string()));
    assert_eq!(d.word_at(2), Err(W2vError::IndexOutOfRange));
    assert_eq!(d.frequency_of("a"), Ok(5));
    assert_eq!(d.frequency_of("z"), Err(W2vError::UnknownWord));
    assert_eq!(d.word_at(d.index_of("b").unwrap()), Ok("b".to_string()));
}

#[test]
fn dictionary_repeated_word_adds_count() {
    let mut d = Dict::new();
    assert_eq!(d.add_word("x", 2), 0);
    assert_eq!(d.add_word("y", 1), 1);
    assert_eq!(d.add_word("x", 4), 0);
    assert_eq!(d.size(), 2);
    assert_eq!(d.frequency_of("x"), Ok(6));
    assert_eq!(d.add_word("x", u64::MAX), 0);
    assert_eq!(d.frequency_of("x"), Ok(u64::MAX));
}

#[test]
fn score_keys_follow_float_order() {
    assert_eq!(score_key(0.0f32.to_bits()), score_key((-0.0f32).to_bits()));
    assert!(score_key(1.5f32.to_bits()) > score_key(1.0f32.to_bits()));
    assert!(score_key((-1.0f32).to_bits()) > score_key((-1.5f32).to_bits()));
    assert!(score_key((-1.0f32).to_bits()) < score_key(0.0f32.to_bits()));
    assert!(score_key(f32::INFINITY.to_bits()) > score_key(f32::MAX.to_bits()));
    assert!(score_key(f32::NEG_INFINITY.to_bits()) < score_key(f32::MIN.to_bits()));
}

#[test]
fn ranking_of_scores() {
    let scores = bits(&[0.0, 2.0, -1.0, -0.0, 2.0]);
    assert_eq!(rank_indices(&scores), vec![1, 4, 0, 3, 2]);
    assert_eq!(rank_indices(&Vec::new()), Vec::<usize>::new());
}

#[test]
fn decimal_text() {
    assert_eq!(decimal_string(0), "0");
    assert_eq!(decimal_string(7), "7");
    assert_eq!(decimal_string(1234567890), "1234567890");
    assert_eq!(decimal_string(u64::MAX), "18446744073709551615");
}
