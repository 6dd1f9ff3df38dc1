use ppgg::mask::BitMask;

#[test]
fn test_from_string1() -> Result<(),()> {
        let mut test_case="".to_string(); 
        match BitMask::from_string(&mut test_case).bitmask_elements
        {
            Some(_)=>Err(()),
            None=>Ok(())
        }
    }

#[test]
fn test_from_string2() -> Result<(),()> {
        let mut test_case="2$".to_string();
        match BitMask::from_string(&mut test_case).bitmask_elements
        {
            Some(vec)=>
            {
                assert_eq!(vec.len(),1);
                assert_eq!(vec[0],2);
                Ok(())
            },
            None=>Err(())
        }

    }

#[test]
fn test_from_string3() -> Result<(),()> {
        let mut test_case="0$".to_string();
        match BitMask::from_string(&mut test_case).bitmask_elements
        {
            Some(vec)=>Err(()),
            None=>Ok(())
        }
    }

#[test]
fn test_from_string4() -> Result<(),()> {
        let mut test_case="1024$".to_string();
        match BitMask::from_string(&mut test_case).bitmask_elements
        {
            Some(vec)=>
            {
                assert_eq!(vec.len(),1);
                assert_eq!(vec[0],1024);
                Ok(())
            },
            None=>Err(())
        }
    }

#[test]
fn test_from_string5() -> Result<(),()> {
        let mut test_case="1024,2048,4096".to_string();
        match BitMask::from_string(&mut test_case).bitmask_elements
        {
            Some(vec)=>
            {
                assert_eq!(vec.len(),3);
                assert_eq!(vec[0],1024);
                assert_eq!(vec[1],2048);
                assert_eq!(vec[2],4096);
                Ok(())
            },
            None=>Err(())
        }
    }

#[test]
fn test_from_string7() -> Result<(),()> {
        let mut test_case="1024,0,4096".to_string();
        match BitMask::from_string(&mut test_case).bitmask_elements
        {
            Some(vec)=>
            {
                assert_eq!(vec.len(),3);
                assert_eq!(vec[0],1024);
                assert_eq!(vec[1],0);
                assert_eq!(vec[2],4096);
                Ok(())
            },
            None=>Err(())
        }
    }

#[test]
fn test_get_indicies1() -> Result<(),()> {
        let mut test_case="0$".to_string();
        let mut test_bitmask=BitMask::from_string(&mut test_case);
        match test_bitmask.get_indices()
        {
            None=>Ok(()), 
            Some(vecs)=>Err(())
        }
    }

#[test]
fn test_get_indicies2() -> Result<(),()> {
        let mut test_case="1$".to_string();
        let mut test_bitmask=BitMask::from_string(&mut test_case);
        match test_bitmask.get_indices()
        {
            None=>Err(()), 
            Some((vec_h1,vec_h2))=>
            {
                assert_eq!(vec_h1.len(),1);
                assert_eq!(vec_h2.len(),0);
                assert_eq!(vec_h1[0],0);
                Ok(())
            }
        }
    }

#[test]
fn test_get_indicies3() -> Result<(),()> {
        let mut test_case="3$".to_string();
        let mut test_bitmask=BitMask::from_string(&mut test_case);
        match test_bitmask.get_indices()
        {
            None=>Err(()), 
            Some((vec_h1,vec_h2))=>
            {
                assert_eq!(vec_h1.len(),1);
                assert_eq!(vec_h2.len(),1);
                assert_eq!(vec_h1[0],0);
                assert_eq!(vec_h2[0],0);
                Ok(())
            }
        }
    }

#[test]
fn test_get_indicies4() -> Result<(),()> {
        let mut test_case="1024$".to_string();
        let mut test_bitmask=BitMask::from_string(&mut test_case);
        match test_bitmask.get_indices()
        {
            None=>Err(()), 
            Some((vec_h1,vec_h2))=>
            {
                assert_eq!(vec_h1.len(),1);
                assert_eq!(vec_h2.len(),0);      
                assert_eq!(vec_h1[0],5);
                Ok(())
            }
        }
    }

#[test]
fn test_get_indicies5() -> Result<(),()> {
        let mut test_case="1,1".to_string();
        let mut test_bitmask=BitMask::from_string(&mut test_case);
        match test_bitmask.get_indices()
        {
            None=>Err(()), 
            Some((vec_h1,vec_h2))=>
            {
                assert_eq!(vec_h1.len(),2);
                assert_eq!(vec_h2.len(),0);      
                assert_eq!(vec_h1[0],0);
                assert_eq!(vec_h1[1],15);
                Ok(())
            }
        }
    }

#[test]
fn test_get_indicies6() -> Result<(),()> {
        let mut test_case="3,3".to_string();
        let mut test_bitmask=BitMask::from_string(&mut test_case);
        match test_bitmask.get_indices()
        {
            None=>Err(()), 
            Some((vec_h1,vec_h2))=>
            {
                assert_eq!(vec_h1.len(),2);
                assert_eq!(vec_h2.len(),2);      
                assert_eq!(vec_h1[0],0);
                assert_eq!(vec_h1[1],15);
                assert_eq!(vec_h2[0],0);
                assert_eq!(vec_h2[1],15);
                Ok(())
            }
        }
    }

#[test]
fn test_get_indicies7() -> Result<(),()> {
        let mut test_case="3,3,3,3".to_string();
        let mut test_bitmask=BitMask::from_string(&mut test_case);
        match test_bitmask.get_indices()
        {
            None=>Err(()), 
            Some((vec_h1,vec_h2))=>
            {
                assert_eq!(vec_h1.len(),4);
                assert_eq!(vec_h2.len(),4);      
                assert_eq!(vec_h1[0],0);
                assert_eq!(vec_h1[1],15);
                assert_eq!(vec_h1[2],30);
                assert_eq!(vec_h1[3],45);
                assert_eq!(vec_h2[0],0);
                assert_eq!(vec_h2[1],15);
                assert_eq!(vec_h1[2],30);
                assert_eq!(vec_h1[3],45);
                Ok(())
            }
        }
    }

