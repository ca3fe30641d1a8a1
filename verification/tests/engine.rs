use base64::Engine;
use mpc_core::codec::{to_bigint_arr, to_gfp};
use mpc_core::engine::{DataObject, SecretShareEngine};
use mpc_core::error::Error;
use mpc_core::field::{add_mod, mul_mod, sub_mod, P, R, R_INV};

fn b64(bytes: Vec<u8>) -> String {
    base64::engine::general_purpose::STANDARD.encode(bytes)
}

fn unb64(s: &str) -> Vec<u8> {
    base64::engine::general_purpose::STANDARD.decode(s).unwrap()
}

#[test]
fn test_secret() {
    let mut engine = SecretShareEngine::new();
    let uuid = "b3bde039-d497-4b71-9956-db12f2dddbde".to_string();
    let share = DataObject {
        value: "jhXaWICsBMZadvGKldslPg==".to_string(),
    };
    let share = vec![share];
    // no masks were ever generated under this identifier, so the upload
    // is rejected and no record exists: the bundles come back empty
    assert_eq!(engine.add_secrets(0, &uuid, &share), Err(Error::MasksNotFound));
    assert_eq!(engine.add_secrets(1, &uuid, &share), Err(Error::MasksNotFound));
    let odo_0 = engine.get_secret_share(0, &uuid, &uuid);
    let odo_1 = engine.get_secret_share(0, &uuid, &uuid);
    let s_0 = to_bigint_arr(&unb64(&odo_0.secret_shares), R_INV, P).unwrap();
    let s_1 = to_bigint_arr(&unb64(&odo_1.secret_shares), R_INV, P).unwrap();
    assert_eq!(s_0.len(), 0);
    assert_eq!(s_1.len(), 0);
    s_0.iter().zip(s_1).for_each(|(l, r)| {
        let res = add_mod(*l, r, P);
        assert_eq!(res.to_string(), "450".to_string());
    });
}

#[test]
fn complete_test() {
    let mut engine = SecretShareEngine::new();
    let uuid = "b3bde039-d497-4b71-9956-db12f2dddbee".to_string();
    let secret: u128 = 500000;
    // generate input masks from both providers
    let m_0 = engine.generate_input_masks(0, uuid.clone(), 1);
    let m_1 = engine.generate_input_masks(1, uuid.clone(), 1);

    // encode secret with the help of input masks
    let zipped = mpc_core::engine::zipp_shares(&vec![m_0, m_1], R_INV, P).unwrap();
    // share = secret - (r1 + r2) where r1, r2 are from the bundles
    let secret_shared = sub_mod(secret, zipped.secrets[0], P);
    let encoded_share = b64(to_gfp(secret_shared, R, P));
    let share_list = vec![DataObject {
        value: encoded_share,
    }];
    // add secrets
    engine.add_secrets(0, &uuid, &share_list).unwrap();
    engine.add_secrets(1, &uuid, &share_list).unwrap();

    let odo_0 = engine.get_secret_share(0, &uuid, &uuid);
    let odo_1 = engine.get_secret_share(1, &uuid, &uuid);
    let s_0 = to_bigint_arr(&unb64(&odo_0.secret_shares), R_INV, P).unwrap();
    let s_1 = to_bigint_arr(&unb64(&odo_1.secret_shares), R_INV, P).unwrap();

    s_0.iter().zip(s_1).for_each(|(l, r)| {
        let res = add_mod(*l, r, P);
        assert_eq!(res, secret);
    });
}

#[test]
fn test_multiple_shares() {
    let mut engine = SecretShareEngine::new();
    let uuid = "b3bde039-d497-4b71-9956-db12f2dddbec".to_string();
    let secrets: Vec<u128> = vec![1, 2, 3];
    // generate input masks from both providers
    let m_0 = engine.generate_input_masks(0, uuid.clone(), secrets.len() as i32);
    let m_1 = engine.generate_input_masks(1, uuid.clone(), secrets.len() as i32);

    // encode each secret with the help of its input mask column
    let zipped = mpc_core::engine::zipp_shares(&vec![m_0, m_1], R_INV, P).unwrap();
    let secret_shares = secrets
        .iter()
        .cloned()
        .zip(zipped.secrets)
        .map(|(s, z)| sub_mod(s, z, P))
        .map(|secret_share| b64(to_gfp(secret_share, R, P)))
        .map(|encoded| DataObject { value: encoded })
        .collect::<Vec<DataObject>>();
    // add secrets
    engine.add_secrets(0, &uuid, &secret_shares).unwrap();
    engine.add_secrets(1, &uuid, &secret_shares).unwrap();

    let odo_0 = engine.get_secret_share(0, &uuid, &uuid);
    let odo_1 = engine.get_secret_share(1, &uuid, &uuid);
    let s_0 = to_bigint_arr(&unb64(&odo_0.secret_shares), R_INV, P).unwrap();
    let s_1 = to_bigint_arr(&unb64(&odo_1.secret_shares), R_INV, P).unwrap();

    s_0.iter().zip(s_1).enumerate().for_each(|(i, (l, r))| {
        let res = add_mod(*l, r, P);
        assert_eq!(res, secrets[i]);
    });
}

#[test]
fn test_additive_reconstruction() {
    // splitting a random cleartext across both providers and summing the
    // halves modulo P gives the cleartext back
    let mut engine = SecretShareEngine::new();
    let id = "reconstruction".to_string();
    let x: u128 = rand::random::<u128>() % P;
    let masks = engine.get_or_generate_masks(&id, 1);
    let blinded = sub_mod(x, add_mod(masks[0].secret.0, masks[0].secret.1, P), P);
    let upload = vec![DataObject {
        value: b64(to_gfp(blinded, R, P)),
    }];
    engine.add_secrets(0, &id, &upload).unwrap();
    engine.add_secrets(1, &id, &upload).unwrap();
    let record = engine.get_secrets_internal(&id);
    assert_eq!(record.len(), 1);
    assert_eq!(add_mod(record[0].0, record[0].1, P), x);
    // the provider-side reconstruction helper agrees
    assert_eq!(mpc_core::engine::reconstruct_secrets(&record), vec![x]);
}

#[test]
fn test_upload_order_does_not_matter() {
    let mut engine = SecretShareEngine::new();
    let id = "order".to_string();
    let x: u128 = 77777;
    let masks = engine.get_or_generate_masks(&id, 1);
    let blinded = sub_mod(x, add_mod(masks[0].secret.0, masks[0].secret.1, P), P);
    let upload = vec![DataObject {
        value: b64(to_gfp(blinded, R, P)),
    }];
    // provider 1 first, then provider 0
    engine.add_secrets(1, &id, &upload).unwrap();
    engine.add_secrets(0, &id, &upload).unwrap();
    let record = engine.get_secrets_internal(&id);
    assert_eq!(add_mod(record[0].0, record[0].1, P), x);
}

#[test]
fn test_mask_idempotence() {
    let mut engine = SecretShareEngine::new();
    let id = "idempotent".to_string();
    let first = engine.get_or_generate_masks(&id, 4);
    let second = engine.get_or_generate_masks(&id, 4);
    assert_eq!(first, second);
    // the packed bundles are bit-identical as well
    let b1 = engine.generate_input_masks(0, id.clone(), 4);
    let b2 = engine.generate_input_masks(0, id.clone(), 4);
    assert_eq!(b1.secret_shares, b2.secret_shares);
    assert_eq!(b1.r_shares, b2.r_shares);
    assert_eq!(b1.v_shares, b2.v_shares);
    assert_eq!(b1.u_shares, b2.u_shares);
    assert_eq!(b1.w_shares, b2.w_shares);
    // a different identifier gives fresh randomness in every component
    let other = engine.get_or_generate_masks(&"different".to_string(), 4);
    for (a, b) in first.iter().zip(other.iter()) {
        assert_ne!(a.secret, b.secret);
        assert_ne!(a.r, b.r);
        assert_ne!(a.v, b.v);
        assert_ne!(a.u, b.u);
        assert_ne!(a.w, b.w);
    }
}

#[test]
fn test_share_retrieval_idempotence() {
    // the randomness of a share bundle is generated once per request
    // identifier: asking twice returns bit-identical bundles
    let mut engine = SecretShareEngine::new();
    let id = "retrieval".to_string();
    let masks = engine.get_or_generate_masks(&id, 1);
    let blinded = sub_mod(42, add_mod(masks[0].secret.0, masks[0].secret.1, P), P);
    let upload = vec![DataObject {
        value: b64(to_gfp(blinded, R, P)),
    }];
    engine.add_secrets(0, &id, &upload).unwrap();
    engine.add_secrets(1, &id, &upload).unwrap();
    let req = "request-7".to_string();
    let first = engine.get_secret_share(0, &id, &req);
    let second = engine.get_secret_share(0, &id, &req);
    assert_eq!(first, second);
}

#[test]
fn test_beaver_correlation_through_bundles() {
    // summing both providers' bundle columns: w == s*(r0+r1) and
    // u == v*(r0+r1) modulo P, where s, v, r are the summed mask columns
    let mut engine = SecretShareEngine::new();
    let id = "correlated".to_string();
    let m_0 = engine.generate_input_masks(0, id.clone(), 3);
    let m_1 = engine.generate_input_masks(1, id.clone(), 3);
    let zipped = mpc_core::engine::zipp_shares(&vec![m_0, m_1], R_INV, P).unwrap();
    for j in 0..3 {
        assert_eq!(zipped.ws[j], mul_mod(zipped.secrets[j], zipped.rs[j], P));
        assert_eq!(zipped.us[j], mul_mod(zipped.vs[j], zipped.rs[j], P));
    }
}

#[test]
fn test_engine_errors() {
    let mut engine = SecretShareEngine::new();
    let id = "errors".to_string();
    let upload = vec![DataObject {
        value: b64(to_gfp(5, R, P)),
    }];
    // masked input before any masks exist
    assert_eq!(engine.add_secrets(0, &id, &upload), Err(Error::MasksNotFound));
    let masks = engine.get_or_generate_masks(&id, 2);
    assert_eq!(masks.len(), 2);
    // one blinded value against two masks
    assert_eq!(engine.add_secrets(0, &id, &upload), Err(Error::ShapeMismatch));
    // not base64 at all
    let bad = vec![DataObject {
        value: "!!!not-base64!!!".to_string(),
    }];
    assert_eq!(engine.add_secrets(0, &id, &bad), Err(Error::MalformedInput));
    // base64 of a block that is not a whole number of words
    let ragged = vec![DataObject {
        value: b64(vec![1, 2, 3]),
    }];
    assert_eq!(engine.add_secrets(0, &id, &ragged), Err(Error::MalformedInput));
}

#[test]
fn test_missing_record_yields_empty_bundle() {
    let mut engine = SecretShareEngine::new();
    let odo = engine.get_secret_share(0, &"absent".to_string(), &"req".to_string());
    assert_eq!(odo.secret_shares, "");
    assert_eq!(odo.r_shares, "");
    assert_eq!(odo.v_shares, "");
    assert_eq!(odo.w_shares, "");
    assert_eq!(odo.u_shares, "");
}

#[test]
fn test_delete_secret_is_idempotent() {
    let mut engine = SecretShareEngine::new();
    let id = "gone".to_string();
    let masks = engine.get_or_generate_masks(&id, 1);
    let blinded = sub_mod(9, add_mod(masks[0].secret.0, masks[0].secret.1, P), P);
    let upload = vec![DataObject {
        value: b64(to_gfp(blinded, R, P)),
    }];
    engine.add_secrets(0, &id, &upload).unwrap();
    assert_eq!(engine.get_secrets_internal(&id).len(), 1);
    engine.delete_secret(&id);
    assert_eq!(engine.get_secrets_internal(&id).len(), 0);
    // deleting again is harmless
    engine.delete_secret(&id);
    assert_eq!(engine.get_secrets_internal(&id).len(), 0);
}
